//! The engine's cross-cutting guarantees, stated and proved over the same
//! spec functions the executable contracts use.
use vstd::prelude::*;

use crate::codec::{info_enc, lemma_key_shapes, lmp_key, state_info_key};
use crate::ledger::{
    ledger_balance, lemma_lmp_bump_effect, lemma_ledger_set_effect, lemma_table_set_len,
    lemma_wf_stored_table_small, lmp_bump, lmp_value, sat_add, sat_add64, sat_mul, stored_table,
    wf_ledger,
};
use crate::lmp::{apply_trade_lmp, FEES_PAID_METRIC, MAKER_VOLUME_METRIC, TRADING_VOLUME_METRIC};
use crate::settlement::{apply_trade, trade_buyer, trade_seller};
use crate::sync::{apply_batch_spec, apply_import};
use crate::types::{
    AssetId, IngressMessage, ReplayError, StateInfo, Trade, TradingPair, TradingPairConfig,
    UserActionBatch,
};

verus! {

/// Monotonic stid: once the cursor records the stid of an applied batch,
/// any later batch whose stid does not strictly exceed it is rejected as
/// stale with `InvalidStid` before anything else happens. Combined with
/// `process_batch`'s contract — the stale guard returns with the store and
/// cursor untouched — no balance changes occur.
pub proof fn lemma_monotonic_stid(
    m: Map<Seq<u8>, Seq<u8>>,
    info: StateInfo,
    b2: UserActionBatch,
    pairs: Seq<(TradingPair, TradingPairConfig)>,
    ingress: Seq<(u64, Vec<IngressMessage>)>,
    epoch: u32,
)
    requires
        b2.stid <= info.stid,
    ensures
        apply_batch_spec(m, info, b2, pairs, ingress, epoch) == Err::<
            (Map<Seq<u8>, Seq<u8>>, StateInfo, Seq<crate::types::Withdrawal>),
            ReplayError,
        >(ReplayError::InvalidStid),
{
}

/// Conservation under trade: on a market of distinct assets, between two
/// distinct main accounts, and with the credited balances free of overflow,
/// a settled trade moves exactly `amount` base from the seller to the buyer
/// and exactly price-times-amount quote from the buyer to the seller; the
/// fee figures feed the accumulators only, never the balances.
pub proof fn lemma_trade_conservation(
    m: Map<Seq<u8>, Seq<u8>>,
    t: Trade,
    cfg: TradingPairConfig,
    epoch: u32,
)
    requires
        wf_ledger(m),
        cfg.base_asset != cfg.quote_asset,
        trade_seller(t) != trade_buyer(t),
        apply_trade(m, t, cfg, epoch) is Some,
        ledger_balance(m, trade_buyer(t), cfg.base_asset) + t.amount <= u128::MAX,
        ledger_balance(m, trade_seller(t), cfg.quote_asset) + sat_mul(t.price, t.amount)
            <= u128::MAX,
    ensures
        ({
            let m2 = apply_trade(m, t, cfg, epoch).unwrap();
            let q = sat_mul(t.price, t.amount);
            &&& ledger_balance(m2, trade_seller(t), cfg.base_asset) == ledger_balance(
                m,
                trade_seller(t),
                cfg.base_asset,
            ) - t.amount
            &&& ledger_balance(m2, trade_buyer(t), cfg.base_asset) == ledger_balance(
                m,
                trade_buyer(t),
                cfg.base_asset,
            ) + t.amount
            &&& ledger_balance(m2, trade_buyer(t), cfg.quote_asset) == ledger_balance(
                m,
                trade_buyer(t),
                cfg.quote_asset,
            ) - q
            &&& ledger_balance(m2, trade_seller(t), cfg.quote_asset) == ledger_balance(
                m,
                trade_seller(t),
                cfg.quote_asset,
            ) + q
        }),
{
    reveal(crate::settlement::apply_trade);
    let seller = trade_seller(t);
    let buyer = trade_buyer(t);
    let q = sat_mul(t.price, t.amount);
    let sb = ledger_balance(m, seller, cfg.base_asset);
    let bq = ledger_balance(m, buyer, cfg.quote_asset);
    let m1 = crate::ledger::ledger_set(m, seller, cfg.base_asset, (sb - t.amount) as u128);
    let m2 = crate::ledger::ledger_set(m1, buyer, cfg.quote_asset, (bq - q) as u128);
    let m3 = crate::ledger::ledger_set(
        m2,
        buyer,
        cfg.base_asset,
        sat_add(ledger_balance(m2, buyer, cfg.base_asset), t.amount),
    );
    let m4 = crate::ledger::ledger_set(
        m3,
        seller,
        cfg.quote_asset,
        sat_add(ledger_balance(m3, seller, cfg.quote_asset), q),
    );
    lemma_wf_stored_table_small(m, seller);
    lemma_wf_stored_table_small(m, buyer);
    lemma_table_set_len(stored_table(m, seller), cfg.base_asset, (sb - t.amount) as u128);
    lemma_table_set_len(stored_table(m1, buyer), cfg.quote_asset, (bq - q) as u128);
    lemma_table_set_len(
        stored_table(m2, buyer),
        cfg.base_asset,
        sat_add(ledger_balance(m2, buyer, cfg.base_asset), t.amount),
    );
    lemma_table_set_len(
        stored_table(m3, seller),
        cfg.quote_asset,
        sat_add(ledger_balance(m3, seller, cfg.quote_asset), q),
    );
    lemma_ledger_set_effect(
        m,
        seller,
        cfg.base_asset,
        (sb - t.amount) as u128,
        buyer,
        cfg.quote_asset,
    );
    lemma_ledger_set_effect(m, seller, cfg.base_asset, (sb - t.amount) as u128, buyer, cfg.base_asset);
    lemma_ledger_set_effect(
        m,
        seller,
        cfg.base_asset,
        (sb - t.amount) as u128,
        seller,
        cfg.quote_asset,
    );
    lemma_ledger_set_effect(
        m,
        seller,
        cfg.base_asset,
        (sb - t.amount) as u128,
        seller,
        cfg.base_asset,
    );
    lemma_ledger_set_effect(m1, buyer, cfg.quote_asset, (bq - q) as u128, buyer, cfg.quote_asset);
    lemma_ledger_set_effect(m1, buyer, cfg.quote_asset, (bq - q) as u128, seller, cfg.base_asset);
    lemma_ledger_set_effect(
        m2,
        buyer,
        cfg.base_asset,
        sat_add(ledger_balance(m2, buyer, cfg.base_asset), t.amount),
        buyer,
        cfg.base_asset,
    );
    lemma_ledger_set_effect(
        m1,
        buyer,
        cfg.quote_asset,
        (bq - q) as u128,
        buyer,
        cfg.base_asset,
    );
    lemma_ledger_set_effect(
        m1,
        buyer,
        cfg.quote_asset,
        (bq - q) as u128,
        seller,
        cfg.quote_asset,
    );
    lemma_ledger_set_effect(
        m2,
        buyer,
        cfg.base_asset,
        sat_add(ledger_balance(m2, buyer, cfg.base_asset), t.amount),
        seller,
        cfg.quote_asset,
    );
    lemma_ledger_set_effect(
        m2,
        buyer,
        cfg.base_asset,
        sat_add(ledger_balance(m2, buyer, cfg.base_asset), t.amount),
        buyer,
        cfg.quote_asset,
    );
    lemma_ledger_set_effect(
        m2,
        buyer,
        cfg.base_asset,
        sat_add(ledger_balance(m2, buyer, cfg.base_asset), t.amount),
        seller,
        cfg.base_asset,
    );
    lemma_ledger_set_effect(
        m3,
        seller,
        cfg.quote_asset,
        sat_add(ledger_balance(m3, seller, cfg.quote_asset), q),
        seller,
        cfg.base_asset,
    );
    lemma_ledger_set_effect(
        m3,
        seller,
        cfg.quote_asset,
        sat_add(ledger_balance(m3, seller, cfg.quote_asset), q),
        buyer,
        cfg.base_asset,
    );
    lemma_ledger_set_effect(
        m3,
        seller,
        cfg.quote_asset,
        sat_add(ledger_balance(m3, seller, cfg.quote_asset), q),
        buyer,
        cfg.quote_asset,
    );
    assert(ledger_balance(m1, seller, cfg.base_asset) == sb - t.amount);
    assert(ledger_balance(m1, buyer, cfg.quote_asset) == bq);
    assert(ledger_balance(m2, buyer, cfg.quote_asset) == bq - q);
    assert(ledger_balance(m2, buyer, cfg.base_asset) == ledger_balance(m, buyer, cfg.base_asset));
    assert(ledger_balance(m3, buyer, cfg.base_asset) == ledger_balance(m, buyer, cfg.base_asset)
        + t.amount);
    assert(ledger_balance(m3, seller, cfg.quote_asset) == ledger_balance(
        m,
        seller,
        cfg.quote_asset,
    ));
    lemma_ledger_set_effect(
        m3,
        seller,
        cfg.quote_asset,
        sat_add(ledger_balance(m3, seller, cfg.quote_asset), q),
        seller,
        cfg.quote_asset,
    );
    assert(ledger_balance(m4, seller, cfg.quote_asset) == ledger_balance(
        m,
        seller,
        cfg.quote_asset,
    ) + q);
    assert(ledger_balance(m4, seller, cfg.base_asset) == sb - t.amount);
    assert(ledger_balance(m4, buyer, cfg.base_asset) == ledger_balance(m, buyer, cfg.base_asset)
        + t.amount);
    assert(ledger_balance(m4, buyer, cfg.quote_asset) == bq - q);
    // The accumulator writes do not touch balances.
    let m5 = apply_trade_lmp(m4, t, cfg, epoch, t.maker_fee, t.taker_fee);
    lemma_trade_lmp_preserves_balances(m4, t, cfg, epoch, t.maker_fee, t.taker_fee);
    assert(apply_trade(m, t, cfg, epoch) == Some(m5));
}

/// The accumulator side of a trade never changes a balance.
proof fn lemma_trade_lmp_preserves_balances(
    m: Map<Seq<u8>, Seq<u8>>,
    t: Trade,
    cfg: TradingPairConfig,
    epoch: u32,
    maker_fees: u128,
    taker_fees: u128,
)
    ensures
        forall|who: u64, asset: AssetId|
            #[trigger] ledger_balance(
                apply_trade_lmp(m, t, cfg, epoch, maker_fees, taker_fees),
                who,
                asset,
            ) == ledger_balance(m, who, asset),
{
    let volume = sat_mul(t.price, t.amount);
    let k1 = lmp_key(epoch, cfg.base_asset, cfg.quote_asset, TRADING_VOLUME_METRIC, t.maker);
    let k2 = lmp_key(epoch, cfg.base_asset, cfg.quote_asset, TRADING_VOLUME_METRIC, t.taker);
    let k3 = lmp_key(epoch, cfg.base_asset, cfg.quote_asset, MAKER_VOLUME_METRIC, t.maker);
    let k4 = lmp_key(epoch, cfg.base_asset, cfg.quote_asset, FEES_PAID_METRIC, t.maker);
    let k5 = lmp_key(epoch, cfg.base_asset, cfg.quote_asset, FEES_PAID_METRIC, t.taker);
    lemma_key_shapes(0, epoch, cfg.base_asset, cfg.quote_asset, TRADING_VOLUME_METRIC, t.maker);
    lemma_key_shapes(0, epoch, cfg.base_asset, cfg.quote_asset, TRADING_VOLUME_METRIC, t.taker);
    lemma_key_shapes(0, epoch, cfg.base_asset, cfg.quote_asset, MAKER_VOLUME_METRIC, t.maker);
    lemma_key_shapes(0, epoch, cfg.base_asset, cfg.quote_asset, FEES_PAID_METRIC, t.maker);
    lemma_key_shapes(0, epoch, cfg.base_asset, cfg.quote_asset, FEES_PAID_METRIC, t.taker);
    let m1 = lmp_bump(m, k1, volume);
    let m2 = lmp_bump(m1, k2, volume);
    let m3 = lmp_bump(m2, k3, volume);
    let maker_quote_fees = match t.maker_side {
        crate::types::OrderSide::Ask => maker_fees,
        crate::types::OrderSide::Bid => sat_mul(maker_fees, t.price),
    };
    let taker_quote_fees = match t.maker_side {
        crate::types::OrderSide::Ask => sat_mul(taker_fees, t.price),
        crate::types::OrderSide::Bid => taker_fees,
    };
    let m4 = lmp_bump(m3, k4, maker_quote_fees);
    lemma_lmp_bump_effect(m, k1, volume);
    lemma_lmp_bump_effect(m1, k2, volume);
    lemma_lmp_bump_effect(m2, k3, volume);
    lemma_lmp_bump_effect(m3, k4, maker_quote_fees);
    lemma_lmp_bump_effect(m4, k5, taker_quote_fees);
}

/// Insufficient balance rejection: a withdrawal of more than the current
/// balance settles to `InsufficientBalance`. Combined with `withdraw`'s
/// contract — the error path hands the store back untouched — both the
/// balance and the committed root are unchanged.
pub proof fn lemma_insufficient_withdrawal(
    m: Map<Seq<u8>, Seq<u8>>,
    r: crate::types::WithdrawalRequest,
    stid: u64,
)
    requires
        r.amount > ledger_balance(m, r.main, r.asset),
    ensures
        crate::sync::apply_withdraw(m, r, stid) is Err,
        crate::crypto::sr25519_verifies(
            r.signature@,
            crate::codec::withdraw_payload_enc(r),
            r.public_key@,
        ) ==> crate::sync::apply_withdraw(m, r, stid) == Err::<
            (Map<Seq<u8>, Seq<u8>>, crate::types::Withdrawal),
            ReplayError,
        >(ReplayError::InsufficientBalance),
{
}

/// What a whole catch-up replay does: each batch applied in order, the
/// cursor stamped with the batch's own stid and number, and the cursor
/// persisted — exactly what one committed step of the sync controller does
/// per batch, since committing never changes the contents.
pub open spec fn replay_batches(
    m: Map<Seq<u8>, Seq<u8>>,
    info: StateInfo,
    batches: Seq<UserActionBatch>,
    pairs: Seq<(TradingPair, TradingPairConfig)>,
    ingress: Seq<(u64, Vec<IngressMessage>)>,
    epoch: u32,
) -> Result<(Map<Seq<u8>, Seq<u8>>, StateInfo), ReplayError>
    decreases batches.len(),
{
    if batches.len() == 0 {
        Ok((m, info))
    } else {
        match apply_batch_spec(m, info, batches[0], pairs, ingress, epoch) {
            Err(e) => Err(e),
            Ok((m1, i1, ws)) => {
                let i2 = StateInfo {
                    stid: batches[0].stid,
                    snapshot_id: batches[0].snapshot_id,
                    ..i1
                };
                let m2 = m1.insert(state_info_key(), info_enc(i2));
                replay_batches(m2, i2, batches.skip(1), pairs, ingress, epoch)
            },
        }
    }
}

/// Replay composes: applying a batch sequence in two legs, one leg at a
/// time, reaches exactly the state of applying it in one pass.
pub proof fn lemma_replay_split(
    m: Map<Seq<u8>, Seq<u8>>,
    info: StateInfo,
    bs1: Seq<UserActionBatch>,
    bs2: Seq<UserActionBatch>,
    pairs: Seq<(TradingPair, TradingPairConfig)>,
    ingress: Seq<(u64, Vec<IngressMessage>)>,
    epoch: u32,
)
    ensures
        replay_batches(m, info, bs1 + bs2, pairs, ingress, epoch) == match replay_batches(
            m,
            info,
            bs1,
            pairs,
            ingress,
            epoch,
        ) {
            Ok((m1, i1)) => replay_batches(m1, i1, bs2, pairs, ingress, epoch),
            Err(e) => Err(e),
        },
    decreases bs1.len(),
{
    if bs1.len() == 0 {
        assert(bs1 + bs2 =~= bs2);
    } else {
        assert((bs1 + bs2)[0] == bs1[0]);
        assert((bs1 + bs2).skip(1) =~= bs1.skip(1) + bs2);
        match apply_batch_spec(m, info, bs1[0], pairs, ingress, epoch) {
            Err(e) => {},
            Ok((m1, i1, ws)) => {
                let i2 = StateInfo { stid: bs1[0].stid, snapshot_id: bs1[0].snapshot_id, ..i1 };
                let m2 = m1.insert(state_info_key(), info_enc(i2));
                lemma_replay_split(m2, i2, bs1.skip(1), bs2, pairs, ingress, epoch);
            },
        }
    }
}

/// Catch-up convergence: replaying a batch range one batch at a time from a
/// cold start — committing after each batch, which never changes the
/// contents — reaches the same final contents, at every split point, as
/// replaying the range in the same order in one pass from the same starting
/// root. `state_root_of` is a function of those contents, so both ways
/// commit to the identical state hash.
pub proof fn lemma_catch_up_convergence(
    m: Map<Seq<u8>, Seq<u8>>,
    info: StateInfo,
    batches: Seq<UserActionBatch>,
    pairs: Seq<(TradingPair, TradingPairConfig)>,
    ingress: Seq<(u64, Vec<IngressMessage>)>,
    epoch: u32,
    k: int,
)
    requires
        0 <= k <= batches.len(),
    ensures
        replay_batches(m, info, batches, pairs, ingress, epoch) == match replay_batches(
            m,
            info,
            batches.take(k),
            pairs,
            ingress,
            epoch,
        ) {
            Ok((m1, i1)) => replay_batches(m1, i1, batches.skip(k), pairs, ingress, epoch),
            Err(e) => Err(e),
        },
{
    assert(batches.take(k) + batches.skip(k) =~= batches);
    lemma_replay_split(m, info, batches.take(k), batches.skip(k), pairs, ingress, epoch);
}

/// Block sequencing: importing any block other than the strict successor of
/// the last imported block is rejected with `BlockOutOfSequence`; importing
/// the successor succeeds and advances the cursor to it.
pub proof fn lemma_block_sequencing(
    m: Map<Seq<u8>, Seq<u8>>,
    info: StateInfo,
    blk: u64,
    ingress: Seq<(u64, Vec<IngressMessage>)>,
)
    ensures
        blk != sat_add64(info.last_block, 1) ==> apply_import(m, info, blk, ingress) == Err::<
            (Map<Seq<u8>, Seq<u8>>, StateInfo),
            ReplayError,
        >(ReplayError::BlockOutOfSequence),
        blk == sat_add64(info.last_block, 1) ==> apply_import(m, info, blk, ingress) is Ok
            && apply_import(m, info, blk, ingress).unwrap().1.last_block == blk,
{
}

/// Volume accumulation: two trades of volumes `v1` and `v2` accumulated for
/// the same epoch, market and main account add up, saturating at the
/// ceiling and never decreasing.
pub proof fn lemma_volume_accumulation(
    m: Map<Seq<u8>, Seq<u8>>,
    epoch: u32,
    cfg: TradingPairConfig,
    main: u64,
    v1: u128,
    v2: u128,
)
    ensures
        ({
            let k = lmp_key(epoch, cfg.base_asset, cfg.quote_asset, TRADING_VOLUME_METRIC, main);
            let v0 = lmp_value(m, k);
            &&& lmp_value(lmp_bump(lmp_bump(m, k, v1), k, v2), k) == sat_add(sat_add(v0, v1), v2)
            &&& (v0 + v1 + v2 <= u128::MAX ==> lmp_value(lmp_bump(lmp_bump(m, k, v1), k, v2), k)
                == v0 + v1 + v2)
            &&& lmp_value(lmp_bump(lmp_bump(m, k, v1), k, v2), k) >= v0
        }),
{
    let k = lmp_key(epoch, cfg.base_asset, cfg.quote_asset, TRADING_VOLUME_METRIC, main);
    lemma_key_shapes(0, epoch, cfg.base_asset, cfg.quote_asset, TRADING_VOLUME_METRIC, main);
    lemma_lmp_bump_effect(m, k, v1);
    lemma_lmp_bump_effect(lmp_bump(m, k, v1), k, v2);
}

} // verus!
