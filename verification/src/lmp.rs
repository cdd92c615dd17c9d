//! The liquidity-volume accumulator: per-epoch trading volume, maker volume
//! and fees-paid bookkeeping, keyed by (epoch, market, metric, account) and
//! stored in the same ledger so it commits with the balances.
//!
//! Every cell is read-add-write and saturating: it never overflows, never
//! panics, and never decreases within an epoch.
use vstd::prelude::*;

use crate::codec::{le_bytes, lmp_key, make_lmp_key, decode_u128, encode_u128,
    lemma_le_bytes_len, lemma_pow256_values};
use crate::ledger::{lmp_bump, lmp_value, sat_add, sat_add_u128, sat_mul, sat_mul_u128, wf_ledger};
use crate::store::OffchainState;
use crate::types::{AssetId, OrderSide, ReplayError, Trade, TradingPairConfig};

verus! {

/// Metric tag of the total trading volume a main account settled.
pub const TRADING_VOLUME_METRIC: u8 = 1;

/// Metric tag of the volume a main account settled as the maker.
pub const MAKER_VOLUME_METRIC: u8 = 2;

/// Metric tag of the fees a main account paid, in quote terms.
pub const FEES_PAID_METRIC: u8 = 3;

/// Accumulates `amount` into one cell, saturating.
fn bump_cell(
    state: &mut OffchainState,
    epoch: u32,
    market: &TradingPairConfig,
    metric: u8,
    main: u64,
    amount: u128,
) -> (r: Result<(), ReplayError>)
    ensures
        r is Ok,
        final(state).view_map() == lmp_bump(
            old(state).view_map(),
            lmp_key(epoch, market.base_asset, market.quote_asset, metric, main),
            amount,
        ),
        wf_ledger(old(state).view_map()) ==> wf_ledger(final(state).view_map()),
        final(state).committed == old(state).committed,
        final(state).wf() == old(state).wf(),
{
    let ghost m = state.view_map();
    let key = make_lmp_key(epoch, market.base_asset, market.quote_asset, metric, main);
    let cur: u128 = match state.get(&key) {
        None => 0,
        Some(bytes) => {
            if bytes.len() == 16 {
                let v = decode_u128(bytes);
                proof {
                    crate::codec::lemma_le_val_bound(bytes@);
                    lemma_pow256_values();
                }
                v
            } else {
                // A cell of the wrong width reads as zero, as the abstract
                // view does. This engine only ever writes 16-byte cells, so
                // no contents it produced can reach this arm.
                0
            }
        },
    };
    let newv = sat_add_u128(cur, amount);
    let bytes = encode_u128(newv);
    let ghost k = key@;
    let ghost m2 = lmp_bump(m, k, amount);
    state.insert(key, bytes);
    proof {
        lemma_le_bytes_len(newv as nat, 16);
        assert(cur == lmp_value(m, k));
        if wf_ledger(m) {
            assert(wf_ledger(m2)) by {
                crate::codec::lemma_key_shapes(0, epoch, market.base_asset, market.quote_asset, metric, main);
                assert forall|k2: Seq<u8>| #[trigger] m2.contains_key(k2) implies (
                crate::codec::is_acct_key(k2) ==> crate::codec::table_dec(m2[k2]).is_some()
                    && m2[k2].len() <= usize::MAX) && (crate::codec::is_lmp_key(k2) ==> m2[k2].len()
                    == 16) by {
                    if k2 != k {
                        assert(m.contains_key(k2));
                    }
                }
                assert(m2.contains_key(crate::codec::state_info_key())
                    ==> crate::codec::info_dec(m2[crate::codec::state_info_key()]).is_some()) by {
                    assert(crate::codec::state_info_key() != k);
                }
            }
        }
    }
    Ok(())
}

/// Accumulates settled trading volume for a main account under the current
/// epoch.
pub fn update_trade_volume_by_main_account(
    state: &mut OffchainState,
    epoch: u32,
    market: &TradingPairConfig,
    volume: u128,
    main: u64,
) -> (r: Result<(), ReplayError>)
    ensures
        r is Ok,
        final(state).view_map() == lmp_bump(
            old(state).view_map(),
            lmp_key(epoch, market.base_asset, market.quote_asset, TRADING_VOLUME_METRIC, main),
            volume,
        ),
        wf_ledger(old(state).view_map()) ==> wf_ledger(final(state).view_map()),
        final(state).committed == old(state).committed,
        final(state).wf() == old(state).wf(),
{
    bump_cell(state, epoch, market, TRADING_VOLUME_METRIC, main, volume)
}

/// Accumulates maker-side volume for a main account under the current epoch.
pub fn update_maker_volume_by_main_account(
    state: &mut OffchainState,
    epoch: u32,
    market: &TradingPairConfig,
    volume: u128,
    main: u64,
) -> (r: Result<(), ReplayError>)
    ensures
        r is Ok,
        final(state).view_map() == lmp_bump(
            old(state).view_map(),
            lmp_key(epoch, market.base_asset, market.quote_asset, MAKER_VOLUME_METRIC, main),
            volume,
        ),
        wf_ledger(old(state).view_map()) ==> wf_ledger(final(state).view_map()),
        final(state).committed == old(state).committed,
        final(state).wf() == old(state).wf(),
{
    bump_cell(state, epoch, market, MAKER_VOLUME_METRIC, main, volume)
}

/// Accumulates fees paid by a main account, already converted to quote
/// terms, under the current epoch.
pub fn store_fees_paid_by_main_account_in_quote(
    state: &mut OffchainState,
    epoch: u32,
    market: &TradingPairConfig,
    fees_in_quote_terms: u128,
    main: u64,
) -> (r: Result<(), ReplayError>)
    ensures
        r is Ok,
        final(state).view_map() == lmp_bump(
            old(state).view_map(),
            lmp_key(epoch, market.base_asset, market.quote_asset, FEES_PAID_METRIC, main),
            fees_in_quote_terms,
        ),
        wf_ledger(old(state).view_map()) ==> wf_ledger(final(state).view_map()),
        final(state).committed == old(state).committed,
        final(state).wf() == old(state).wf(),
{
    bump_cell(state, epoch, market, FEES_PAID_METRIC, main, fees_in_quote_terms)
}

/// What one trade contributes to the accumulators: price times amount as
/// trading volume for both main accounts and as maker volume for the maker,
/// then the fee figures in quote terms — an ask-side party's fee is already
/// quoted, a bid-side party's fee is converted at the trade price.
pub open spec fn apply_trade_lmp(
    m: Map<Seq<u8>, Seq<u8>>,
    t: Trade,
    cfg: TradingPairConfig,
    epoch: u32,
    maker_fees: u128,
    taker_fees: u128,
) -> Map<Seq<u8>, Seq<u8>> {
    let volume = sat_mul(t.price, t.amount);
    let m1 = lmp_bump(
        m,
        lmp_key(epoch, cfg.base_asset, cfg.quote_asset, TRADING_VOLUME_METRIC, t.maker),
        volume,
    );
    let m2 = lmp_bump(
        m1,
        lmp_key(epoch, cfg.base_asset, cfg.quote_asset, TRADING_VOLUME_METRIC, t.taker),
        volume,
    );
    let m3 = lmp_bump(
        m2,
        lmp_key(epoch, cfg.base_asset, cfg.quote_asset, MAKER_VOLUME_METRIC, t.maker),
        volume,
    );
    let maker_quote_fees = match t.maker_side {
        OrderSide::Ask => maker_fees,
        OrderSide::Bid => sat_mul(maker_fees, t.price),
    };
    let taker_quote_fees = match t.maker_side {
        OrderSide::Ask => sat_mul(taker_fees, t.price),
        OrderSide::Bid => taker_fees,
    };
    let m4 = lmp_bump(
        m3,
        lmp_key(epoch, cfg.base_asset, cfg.quote_asset, FEES_PAID_METRIC, t.maker),
        maker_quote_fees,
    );
    lmp_bump(
        m4,
        lmp_key(epoch, cfg.base_asset, cfg.quote_asset, FEES_PAID_METRIC, t.taker),
        taker_quote_fees,
    )
}

/// Feeds one trade into the accumulators under the given epoch.
pub fn update_lmp_storage_from_trade(
    state: &mut OffchainState,
    trade: &Trade,
    config: TradingPairConfig,
    maker_fees: u128,
    taker_fees: u128,
    epoch: u32,
) -> (r: Result<(), ReplayError>)
    ensures
        r is Ok,
        final(state).view_map() == apply_trade_lmp(
            old(state).view_map(),
            *trade,
            config,
            epoch,
            maker_fees,
            taker_fees,
        ),
        wf_ledger(old(state).view_map()) ==> wf_ledger(final(state).view_map()),
        final(state).committed == old(state).committed,
        final(state).wf() == old(state).wf(),
{
    let volume = sat_mul_u128(trade.price, trade.amount);
    update_trade_volume_by_main_account(state, epoch, &config, volume, trade.maker)?;
    update_trade_volume_by_main_account(state, epoch, &config, volume, trade.taker)?;
    update_maker_volume_by_main_account(state, epoch, &config, volume, trade.maker)?;
    let maker_quote_fees: u128;
    let taker_quote_fees: u128;
    match trade.maker_side {
        OrderSide::Ask => {
            // The maker sold base: maker fees are already in quote terms.
            // The taker bought base, so taker fees convert at the price.
            maker_quote_fees = maker_fees;
            taker_quote_fees = sat_mul_u128(taker_fees, trade.price);
        },
        OrderSide::Bid => {
            // The maker bought base: maker fees convert at the price. The
            // taker sold base, so taker fees are already in quote terms.
            maker_quote_fees = sat_mul_u128(maker_fees, trade.price);
            taker_quote_fees = taker_fees;
        },
    }
    store_fees_paid_by_main_account_in_quote(state, epoch, &config, maker_quote_fees, trade.maker)?;
    store_fees_paid_by_main_account_in_quote(state, epoch, &config, taker_quote_fees, trade.taker)?;
    Ok(())
}

} // verus!
