//! The settlement engine: pure mutations of the ledger store for deposits,
//! withdrawals and trades.
//!
//! A debit fails with `InsufficientBalance` when it would make a balance
//! negative and leaves the store untouched; a credit saturates at the
//! numeric ceiling. A trade moves base from the seller to the buyer and
//! quote from the buyer to the seller at price times amount, rejecting the
//! whole trade with no mutation when either side cannot pay, and feeds the
//! liquidity-volume accumulator in the same step.
use vstd::prelude::*;

use crate::codec::{decode_table, encode_table, lemma_key_shapes, lemma_pow256_values,
    lemma_table_roundtrip, make_acct_key, pow256, table_dec};
use crate::ledger::{
    ledger_balance, ledger_set, lemma_ledger_set_effect, sat_add, sat_add_u128, sat_mul,
    sat_mul_u128, stored_table, table_lookup, table_set, wf_ledger,
};
use crate::lmp::{apply_trade_lmp, update_lmp_storage_from_trade};
use crate::store::OffchainState;
use crate::types::{AssetId, OrderSide, ReplayError, Trade, TradingPairConfig};

verus! {

/// Characterizes an in-place update: replacing the first entry holding the
/// asset is how `table_set` reads on such a table.
proof fn lemma_table_set_at(t: Seq<(AssetId, u128)>, a: AssetId, v: u128, j: int)
    requires
        0 <= j < t.len(),
        t[j].0 == a,
        forall|k: int| 0 <= k < j ==> t[k].0 != a,
    ensures
        table_set(t, a, v) == t.update(j, (a, v)),
    decreases j,
{
    if j == 0 {
        assert(table_set(t, a, v) =~= t.update(0, (a, v)));
    } else {
        assert(forall|k: int| 0 <= k < j - 1 ==> t.skip(1)[k] == t[k + 1]);
        assert(t.skip(1)[j - 1] == t[j]);
        lemma_table_set_at(t.skip(1), a, v, j - 1);
        assert(table_set(t, a, v) =~= t.update(j, (a, v)));
    }
}

/// A table without the asset gains it at the end.
proof fn lemma_table_set_absent(t: Seq<(AssetId, u128)>, a: AssetId, v: u128)
    requires
        forall|k: int| 0 <= k < t.len() ==> t[k].0 != a,
    ensures
        table_set(t, a, v) == t.push((a, v)),
    decreases t.len(),
{
    if t.len() == 0 {
        assert(table_set(t, a, v) =~= t.push((a, v)));
    } else {
        assert(forall|k: int| 0 <= k < t.skip(1).len() ==> t.skip(1)[k] == t[k + 1]);
        lemma_table_set_absent(t.skip(1), a, v);
        assert(table_set(t, a, v) =~= t.push((a, v)));
    }
}

/// Reads the balance an in-memory table holds for an asset.
fn table_get(t: &Vec<(AssetId, u128)>, a: AssetId) -> (r: u128)
    ensures
        r == table_lookup(t@, a),
{
    let n = t.len();
    let mut i: usize = 0;
    proof {
        assert(t@.skip(0) =~= t@);
    }
    while i < n
        invariant
            i <= n,
            n == t@.len(),
            table_lookup(t@, a) == table_lookup(t@.skip(i as int), a),
        decreases n - i,
    {
        proof {
            assert(t@.skip(i as int)[0] == t@[i as int]);
            assert(t@.skip(i as int).skip(1) =~= t@.skip(i + 1));
        }
        if t[i].0 == a {
            return t[i].1;
        }
        i = i + 1;
    }
    proof {
        assert(t@.skip(n as int) =~= Seq::<(AssetId, u128)>::empty());
    }
    0
}

/// Sets the binding for an asset in an in-memory table.
fn table_put(t: &mut Vec<(AssetId, u128)>, a: AssetId, v: u128)
    ensures
        final(t)@ == table_set(old(t)@, a, v),
{
    let n = t.len();
    let mut i: usize = 0;
    while i < n
        invariant
            i <= n,
            n == t@.len(),
            t@ == old(t)@,
            forall|k: int| 0 <= k < i ==> t@[k].0 != a,
        decreases n - i,
    {
        if t[i].0 == a {
            t[i] = (a, v);
            proof {
                lemma_table_set_at(old(t)@, a, v, i as int);
            }
            return ;
        }
        i = i + 1;
    }
    t.push((a, v));
    proof {
        lemma_table_set_absent(old(t)@, a, v);
    }
}

/// Reads an account's balance table out of the store.
fn account_table(state: &OffchainState, who: u64) -> (t: Vec<(AssetId, u128)>)
    requires
        wf_ledger(state.view_map()),
    ensures
        t@ == stored_table(state.view_map(), who),
{
    let key = make_acct_key(who);
    proof {
        lemma_key_shapes(who, 0, AssetId::Polkadex, AssetId::Polkadex, 0, 0);
    }
    match state.get(&key) {
        None => {
            let t: Vec<(AssetId, u128)> = Vec::new();
            proof {
                assert(t@ =~= stored_table(state.view_map(), who));
            }
            t
        },
        Some(bytes) => {
            match decode_table(bytes) {
                Some(t) => t,
                None => {
                    // Unreachable on a well-formed ledger: the stored entry
                    // always decodes.
                    Vec::new()
                },
            }
        },
    }
}

/// The current ledger balance of (account, asset).
pub fn get_balance(state: &OffchainState, who: u64, asset: AssetId) -> (r: u128)
    requires
        wf_ledger(state.view_map()),
    ensures
        r == ledger_balance(state.view_map(), who, asset),
{
    let t = account_table(state, who);
    table_get(&t, asset)
}

/// Writes one balance back, re-encoding the account's table.
fn set_balance(state: &mut OffchainState, who: u64, asset: AssetId, v: u128)
    requires
        wf_ledger(old(state).view_map()),
    ensures
        final(state).view_map() == ledger_set(old(state).view_map(), who, asset, v),
        wf_ledger(final(state).view_map()),
        final(state).committed == old(state).committed,
        final(state).wf() == old(state).wf(),
{
    let ghost m = state.view_map();
    let mut t = account_table(state, who);
    table_put(&mut t, asset, v);
    let tlen = t.len();
    let bytes = encode_table(&t);
    let blen = bytes.len();
    let key = make_acct_key(who);
    let ghost m2 = ledger_set(m, who, asset, v);
    state.insert(key, bytes);
    proof {
        lemma_pow256_values();
        assert(tlen < pow256(8));
        lemma_table_roundtrip(t@);
        lemma_key_shapes(who, 0, AssetId::Polkadex, AssetId::Polkadex, 0, 0);
        assert(wf_ledger(m2)) by {
            assert forall|k: Seq<u8>| #[trigger] m2.contains_key(k) implies (
            crate::codec::is_acct_key(k) ==> table_dec(m2[k]).is_some() && m2[k].len()
                <= usize::MAX) && (crate::codec::is_lmp_key(k) ==> m2[k].len() == 16) by {
                if k != crate::codec::acct_key(who) {
                    assert(m.contains_key(k));
                }
            }
            assert(m2.contains_key(crate::codec::state_info_key())
                ==> crate::codec::info_dec(m2[crate::codec::state_info_key()]).is_some()) by {
                assert(crate::codec::state_info_key() != crate::codec::acct_key(who));
            }
        }
    }
}

/// Credits `amount` to (account, asset), saturating at the ceiling.
pub fn add_balance(state: &mut OffchainState, account: u64, asset: AssetId, amount: u128) -> (r:
    Result<(), ReplayError>)
    requires
        wf_ledger(old(state).view_map()),
    ensures
        r is Ok,
        final(state).view_map() == ledger_set(
            old(state).view_map(),
            account,
            asset,
            sat_add(ledger_balance(old(state).view_map(), account, asset), amount),
        ),
        wf_ledger(final(state).view_map()),
        final(state).committed == old(state).committed,
        final(state).wf() == old(state).wf(),
{
    let cur = get_balance(state, account, asset);
    let newv = sat_add_u128(cur, amount);
    set_balance(state, account, asset, newv);
    Ok(())
}

/// Debits `amount` from (account, asset); fails with `InsufficientBalance`
/// and no mutation when the balance cannot cover it.
pub fn sub_balance(state: &mut OffchainState, account: u64, asset: AssetId, amount: u128) -> (r:
    Result<(), ReplayError>)
    requires
        wf_ledger(old(state).view_map()),
    ensures
        ({
            let bal = ledger_balance(old(state).view_map(), account, asset);
            if amount > bal {
                r == Err::<(), ReplayError>(ReplayError::InsufficientBalance) && *final(state)
                    == *old(state)
            } else {
                r is Ok && final(state).view_map() == ledger_set(
                    old(state).view_map(),
                    account,
                    asset,
                    (bal - amount) as u128,
                ) && wf_ledger(final(state).view_map())
            }
        }),
        final(state).committed == old(state).committed,
        final(state).wf() == old(state).wf(),
{
    let cur = get_balance(state, account, asset);
    if amount > cur {
        return Err(ReplayError::InsufficientBalance);
    }
    set_balance(state, account, asset, cur - amount);
    Ok(())
}

/// The main account that gives up base in a trade: the ask side.
pub open spec fn trade_seller(t: Trade) -> u64 {
    match t.maker_side {
        OrderSide::Ask => t.maker,
        OrderSide::Bid => t.taker,
    }
}

/// The main account that receives base in a trade: the bid side.
pub open spec fn trade_buyer(t: Trade) -> u64 {
    match t.maker_side {
        OrderSide::Ask => t.taker,
        OrderSide::Bid => t.maker,
    }
}

/// What settling one trade does to the ledger contents: `None` when either
/// side cannot cover its leg, in which case nothing changes; otherwise the
/// four balance moves followed by the volume bookkeeping.
#[verifier::opaque]
pub open spec fn apply_trade(
    m: Map<Seq<u8>, Seq<u8>>,
    t: Trade,
    cfg: TradingPairConfig,
    epoch: u32,
) -> Option<Map<Seq<u8>, Seq<u8>>> {
    let seller = trade_seller(t);
    let buyer = trade_buyer(t);
    let q = sat_mul(t.price, t.amount);
    let sb = ledger_balance(m, seller, cfg.base_asset);
    let bq = ledger_balance(m, buyer, cfg.quote_asset);
    if sb >= t.amount && bq >= q {
        let m1 = ledger_set(m, seller, cfg.base_asset, (sb - t.amount) as u128);
        let m2 = ledger_set(m1, buyer, cfg.quote_asset, (bq - q) as u128);
        let m3 = ledger_set(
            m2,
            buyer,
            cfg.base_asset,
            sat_add(ledger_balance(m2, buyer, cfg.base_asset), t.amount),
        );
        let m4 = ledger_set(
            m3,
            seller,
            cfg.quote_asset,
            sat_add(ledger_balance(m3, seller, cfg.quote_asset), q),
        );
        Some(apply_trade_lmp(m4, t, cfg, epoch, t.maker_fee, t.taker_fee))
    } else {
        None
    }
}

/// Settles one trade: moves base seller-to-buyer and quote buyer-to-seller
/// at price times amount, and accumulates volume and fee figures, all in one
/// mutation set; rejects the trade with no mutation when a leg cannot pay.
pub fn process_trade(
    state: &mut OffchainState,
    trade: &Trade,
    config: TradingPairConfig,
    epoch: u32,
) -> (r: Result<(), ReplayError>)
    requires
        wf_ledger(old(state).view_map()),
        config.base_asset != config.quote_asset,
    ensures
        match apply_trade(old(state).view_map(), *trade, config, epoch) {
            Some(m2) => r is Ok && final(state).view_map() == m2 && wf_ledger(
                final(state).view_map(),
            ),
            None => r == Err::<(), ReplayError>(ReplayError::InsufficientBalance) && *final(state)
                == *old(state),
        },
        final(state).committed == old(state).committed,
        final(state).wf() == old(state).wf(),
{
    proof {
        reveal(crate::settlement::apply_trade);
    }
    let ghost m = state.view_map();
    let seller: u64;
    let buyer: u64;
    match trade.maker_side {
        OrderSide::Ask => {
            seller = trade.maker;
            buyer = trade.taker;
        },
        OrderSide::Bid => {
            seller = trade.taker;
            buyer = trade.maker;
        },
    }
    let q = sat_mul_u128(trade.price, trade.amount);
    let sb = get_balance(state, seller, config.base_asset);
    let bq = get_balance(state, buyer, config.quote_asset);
    if sb < trade.amount || bq < q {
        return Err(ReplayError::InsufficientBalance);
    }
    sub_balance(state, seller, config.base_asset, trade.amount)?;
    proof {
        crate::ledger::lemma_wf_stored_table_small(m, seller);
        lemma_ledger_set_effect(
            m,
            seller,
            config.base_asset,
            (sb - trade.amount) as u128,
            buyer,
            config.quote_asset,
        );
    }
    sub_balance(state, buyer, config.quote_asset, q)?;
    add_balance(state, buyer, config.base_asset, trade.amount)?;
    add_balance(state, seller, config.quote_asset, q)?;
    update_lmp_storage_from_trade(state, trade, config, trade.maker_fee, trade.taker_fee, epoch)?;
    Ok(())
}

} // verus!
