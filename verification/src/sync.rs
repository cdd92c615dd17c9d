//! The sync controller: gap catch-up, batch application, snapshot building.
//!
//! Every cycle loads the persisted replay cursor, applies the batches the
//! aggregator serves strictly in order, commits the store once per batch, and
//! — when the node holds an active validator key — builds the snapshot
//! summary for signing and submission. A batch whose stid does not strictly
//! exceed the stored stid is rejected before any mutation; a batch error
//! aborts the cycle with the pending writes discarded, leaving every prior
//! commit intact.
use vstd::prelude::*;

use crate::codec::withdraw_payload_enc;
use crate::crypto::{sr25519_verifies, sr25519_verify};
use crate::ledger::{ledger_balance, ledger_set, sat_add, sat_add64, sat_add_u64, wf_ledger};
use crate::settlement::{add_balance, apply_trade, process_trade, sub_balance};
use crate::store::OffchainState;
use crate::types::{
    AssetId, IngressMessage, ReplayError, StateInfo, Trade, TradingPair, TradingPairConfig,
    UserAction, UserActionBatch, Withdrawal, WithdrawalRequest,
};

verus! {

/// Every allow-listed market names its own assets, and no market trades an
/// asset against itself.
pub open spec fn pairs_wf(pairs: Seq<(TradingPair, TradingPairConfig)>) -> bool {
    forall|i: int|
        0 <= i < pairs.len() ==> (#[trigger] pairs[i].1).base_asset == pairs[i].0.base
            && pairs[i].1.quote_asset == pairs[i].0.quote && pairs[i].0.base != pairs[i].0.quote
}

/// The configuration of the first allow-listed entry for a market.
pub open spec fn find_pair_spec(
    pairs: Seq<(TradingPair, TradingPairConfig)>,
    pair: TradingPair,
) -> Option<TradingPairConfig>
    decreases pairs.len(),
{
    if pairs.len() == 0 {
        None
    } else if pairs[0].0 == pair {
        Some(pairs[0].1)
    } else {
        find_pair_spec(pairs.skip(1), pair)
    }
}

/// Looks up the configuration of an allow-listed market.
pub fn find_pair(pairs: &Vec<(TradingPair, TradingPairConfig)>, pair: TradingPair) -> (r: Option<
    TradingPairConfig,
>)
    ensures
        r == find_pair_spec(pairs@, pair),
{
    let n = pairs.len();
    let mut i: usize = 0;
    proof {
        assert(pairs@.skip(0) =~= pairs@);
    }
    while i < n
        invariant
            i <= n,
            n == pairs@.len(),
            find_pair_spec(pairs@, pair) == find_pair_spec(pairs@.skip(i as int), pair),
        decreases n - i,
    {
        proof {
            assert(pairs@.skip(i as int)[0] == pairs@[i as int]);
            assert(pairs@.skip(i as int).skip(1) =~= pairs@.skip(i + 1));
        }
        if pairs[i].0 == pair {
            return Some(pairs[i].1);
        }
        i = i + 1;
    }
    proof {
        assert(pairs@.skip(n as int) =~= Seq::<(TradingPair, TradingPairConfig)>::empty());
    }
    None
}

/// The deposit queue of a block: the messages of its first entry.
pub open spec fn ingress_messages_of(
    ingress: Seq<(u64, Vec<IngressMessage>)>,
    blk: u64,
) -> Seq<IngressMessage>
    decreases ingress.len(),
{
    if ingress.len() == 0 {
        Seq::empty()
    } else if ingress[0].0 == blk {
        ingress[0].1@
    } else {
        ingress_messages_of(ingress.skip(1), blk)
    }
}

/// What folding a block's deposit events into the ledger does: each deposit
/// credits its account, saturating; other events are ignored.
pub open spec fn apply_deposits(m: Map<Seq<u8>, Seq<u8>>, msgs: Seq<IngressMessage>) -> Map<
    Seq<u8>,
    Seq<u8>,
>
    decreases msgs.len(),
{
    if msgs.len() == 0 {
        m
    } else {
        let m1 = match msgs[0] {
            IngressMessage::Deposit(who, asset, amt) => ledger_set(
                m,
                who,
                asset,
                sat_add(ledger_balance(m, who, asset), amt),
            ),
            IngressMessage::Other => m,
        };
        apply_deposits(m1, msgs.skip(1))
    }
}

/// What settling one withdrawal request does: rejected when its signature
/// does not verify or the balance cannot cover it, with nothing changed;
/// otherwise the debit plus the commitment record stamped with `stid`.
pub open spec fn apply_withdraw(m: Map<Seq<u8>, Seq<u8>>, r: WithdrawalRequest, stid: u64) -> Result<
    (Map<Seq<u8>, Seq<u8>>, Withdrawal),
    ReplayError,
> {
    if !sr25519_verifies(r.signature@, withdraw_payload_enc(r), r.public_key@) {
        Err(ReplayError::SignatureVerificationFailed)
    } else if r.amount > ledger_balance(m, r.main, r.asset) {
        Err(ReplayError::InsufficientBalance)
    } else {
        Ok(
            (
                ledger_set(
                    m,
                    r.main,
                    r.asset,
                    (ledger_balance(m, r.main, r.asset) - r.amount) as u128,
                ),
                Withdrawal {
                    main_account: r.main,
                    asset: r.asset,
                    amount: r.amount,
                    fees: r.fees,
                    stid,
                },
            ),
        )
    }
}

/// What importing one block does: the block must be the strict successor of
/// the last imported block, else `BlockOutOfSequence`; its deposit queue is
/// folded in and the cursor advances.
pub open spec fn apply_import(
    m: Map<Seq<u8>, Seq<u8>>,
    info: StateInfo,
    blk: u64,
    ingress: Seq<(u64, Vec<IngressMessage>)>,
) -> Result<(Map<Seq<u8>, Seq<u8>>, StateInfo), ReplayError> {
    if blk != sat_add64(info.last_block, 1) {
        Err(ReplayError::BlockOutOfSequence)
    } else {
        Ok(
            (
                apply_deposits(m, ingress_messages_of(ingress, blk)),
                StateInfo { last_block: blk, ..info },
            ),
        )
    }
}

/// What settling a trade list does: each trade in order, against the
/// allow-list; an unknown market or an uncovered leg aborts the list.
pub open spec fn apply_trades(
    m: Map<Seq<u8>, Seq<u8>>,
    trades: Seq<Trade>,
    pairs: Seq<(TradingPair, TradingPairConfig)>,
    epoch: u32,
) -> Result<Map<Seq<u8>, Seq<u8>>, ReplayError>
    decreases trades.len(),
{
    if trades.len() == 0 {
        Ok(m)
    } else {
        match find_pair_spec(pairs, trades[0].pair) {
            None => Err(ReplayError::TradingPairNotFound),
            Some(cfg) => match apply_trade(m, trades[0], cfg, epoch) {
                None => Err(ReplayError::InsufficientBalance),
                Some(m1) => apply_trades(m1, trades.skip(1), pairs, epoch),
            },
        }
    }
}

/// What one user action does to the contents, the cursor and the withdrawal
/// list.
pub open spec fn apply_action(
    m: Map<Seq<u8>, Seq<u8>>,
    info: StateInfo,
    action: UserAction,
    pairs: Seq<(TradingPair, TradingPairConfig)>,
    ingress: Seq<(u64, Vec<IngressMessage>)>,
    epoch: u32,
    ws: Seq<Withdrawal>,
) -> Result<(Map<Seq<u8>, Seq<u8>>, StateInfo, Seq<Withdrawal>), ReplayError> {
    match action {
        UserAction::Trade(trades) => match apply_trades(m, trades@, pairs, epoch) {
            Ok(m1) => Ok((m1, info, ws)),
            Err(e) => Err(e),
        },
        UserAction::Withdraw(r) => match apply_withdraw(m, r, 0) {
            Ok((m1, w)) => Ok((m1, info, ws.push(w))),
            Err(e) => Err(e),
        },
        UserAction::WithdrawV1(r, stid) => match apply_withdraw(m, r, stid) {
            Ok((m1, w)) => Ok((m1, info, ws.push(w))),
            Err(e) => Err(e),
        },
        UserAction::BlockImport(blk) => match apply_import(m, info, blk, ingress) {
            Ok((m1, i1)) => Ok((m1, i1, ws)),
            Err(e) => Err(e),
        },
        UserAction::Reset => Ok((m, info, ws)),
    }
}

/// What a batch's action list does, applied strictly in order.
pub open spec fn apply_actions(
    m: Map<Seq<u8>, Seq<u8>>,
    info: StateInfo,
    actions: Seq<UserAction>,
    pairs: Seq<(TradingPair, TradingPairConfig)>,
    ingress: Seq<(u64, Vec<IngressMessage>)>,
    epoch: u32,
    ws: Seq<Withdrawal>,
) -> Result<(Map<Seq<u8>, Seq<u8>>, StateInfo, Seq<Withdrawal>), ReplayError>
    decreases actions.len(),
{
    if actions.len() == 0 {
        Ok((m, info, ws))
    } else {
        match apply_action(m, info, actions[0], pairs, ingress, epoch, ws) {
            Ok((m1, i1, ws1)) => apply_actions(m1, i1, actions.skip(1), pairs, ingress, epoch, ws1),
            Err(e) => Err(e),
        }
    }
}

/// What applying one whole batch does: a batch whose stid does not strictly
/// exceed the stored stid is stale and rejected before anything else.
pub open spec fn apply_batch_spec(
    m: Map<Seq<u8>, Seq<u8>>,
    info: StateInfo,
    batch: UserActionBatch,
    pairs: Seq<(TradingPair, TradingPairConfig)>,
    ingress: Seq<(u64, Vec<IngressMessage>)>,
    epoch: u32,
) -> Result<(Map<Seq<u8>, Seq<u8>>, StateInfo, Seq<Withdrawal>), ReplayError> {
    if info.stid >= batch.stid {
        Err(ReplayError::InvalidStid)
    } else {
        apply_actions(m, info, batch.actions@, pairs, ingress, epoch, Seq::empty())
    }
}

/// Imports one on-chain block: requires the strict successor of the last
/// imported block and folds its deposit queue into the ledger.
pub fn import_blk(
    blk: u64,
    state: &mut OffchainState,
    state_info: &mut StateInfo,
    ingress: &Vec<(u64, Vec<IngressMessage>)>,
) -> (r: Result<(), ReplayError>)
    requires
        wf_ledger(old(state).view_map()),
    ensures
        final(state).committed == old(state).committed,
        final(state).wf() == old(state).wf(),
        wf_ledger(final(state).view_map()),
        match apply_import(old(state).view_map(), *old(state_info), blk, ingress@) {
            Ok((m2, i2)) => r is Ok && final(state).view_map() == m2 && *final(state_info) == i2,
            Err(e) => r == Err::<(), ReplayError>(e) && *final(state) == *old(state)
                && *final(state_info) == *old(state_info),
        },
{
    let expected = sat_add_u64(state_info.last_block, 1);
    if blk != expected {
        return Err(ReplayError::BlockOutOfSequence);
    }
    let ghost m0 = state.view_map();
    // Find this block's deposit queue.
    let n = ingress.len();
    let mut bi: usize = 0;
    let mut found: bool = false;
    proof {
        assert(ingress@.skip(0) =~= ingress@);
    }
    while bi < n && !found
        invariant
            bi <= n,
            n == ingress@.len(),
            !found ==> ingress_messages_of(ingress@, blk) == ingress_messages_of(
                ingress@.skip(bi as int),
                blk,
            ),
            found ==> bi < n && ingress@[bi as int].0 == blk && ingress_messages_of(ingress@, blk)
                == ingress@[bi as int].1@,
        decreases n - bi, if found { 0int } else { 1int },
    {
        proof {
            assert(ingress@.skip(bi as int)[0] == ingress@[bi as int]);
            assert(ingress@.skip(bi as int).skip(1) =~= ingress@.skip(bi + 1));
        }
        if ingress[bi].0 == blk {
            found = true;
        } else {
            bi = bi + 1;
        }
    }
    proof {
        if !found {
            assert(ingress@.skip(n as int) =~= Seq::<(u64, Vec<IngressMessage>)>::empty());
        }
    }
    if found {
        let msgs = &ingress[bi].1;
        let mn = msgs.len();
        let mut j: usize = 0;
        proof {
            assert(msgs@.skip(0) =~= msgs@);
        }
        while j < mn
            invariant
                j <= mn,
                mn == msgs@.len(),
                msgs@ == ingress@[bi as int].1@,
                bi < ingress@.len(),
                wf_ledger(state.view_map()),
                state.committed == old(state).committed,
                state.wf() == old(state).wf(),
                apply_deposits(m0, msgs@) == apply_deposits(state.view_map(), msgs@.skip(j as int)),
            decreases mn - j,
        {
            proof {
                assert(msgs@.skip(j as int)[0] == msgs@[j as int]);
                assert(msgs@.skip(j as int).skip(1) =~= msgs@.skip(j + 1));
            }
            match msgs[j] {
                IngressMessage::Deposit(who, asset, amt) => {
                    let r = add_balance(state, who, asset, amt);
                },
                IngressMessage::Other => {},
            }
            j = j + 1;
        }
        proof {
            assert(msgs@.skip(mn as int) =~= Seq::<IngressMessage>::empty());
        }
    } else {
        proof {
            assert(apply_deposits(m0, Seq::<IngressMessage>::empty()) == m0);
        }
    }
    state_info.last_block = blk;
    Ok(())
}

/// Settles a trade list against the allow-listed markets.
#[verifier::rlimit(60)]
pub fn trades(
    trade_list: &Vec<Trade>,
    state: &mut OffchainState,
    pairs: &Vec<(TradingPair, TradingPairConfig)>,
    epoch: u32,
) -> (r: Result<(), ReplayError>)
    requires
        wf_ledger(old(state).view_map()),
        pairs_wf(pairs@),
    ensures
        final(state).committed == old(state).committed,
        final(state).wf() == old(state).wf(),
        wf_ledger(final(state).view_map()),
        match apply_trades(old(state).view_map(), trade_list@, pairs@, epoch) {
            Ok(m2) => r is Ok && final(state).view_map() == m2,
            Err(e) => r == Err::<(), ReplayError>(e),
        },
{
    let n = trade_list.len();
    let mut i: usize = 0;
    proof {
        assert(trade_list@.skip(0) =~= trade_list@);
    }
    while i < n
        invariant
            i <= n,
            n == trade_list@.len(),
            pairs_wf(pairs@),
            wf_ledger(state.view_map()),
            state.committed == old(state).committed,
            state.wf() == old(state).wf(),
            apply_trades(old(state).view_map(), trade_list@, pairs@, epoch) == apply_trades(
                state.view_map(),
                trade_list@.skip(i as int),
                pairs@,
                epoch,
            ),
        decreases n - i,
    {
        proof {
            assert(trade_list@.skip(i as int)[0] == trade_list@[i as int]);
            assert(trade_list@.skip(i as int).skip(1) =~= trade_list@.skip(i + 1));
        }
        let config = match find_pair(pairs, trade_list[i].pair) {
            Some(cfg) => cfg,
            None => {
                proof {
                    assert(find_pair_spec(pairs@, trade_list@.skip(i as int)[0].pair) is None);
                    assert(apply_trades(state.view_map(), trade_list@.skip(i as int), pairs@, epoch)
                        == Err::<Map<Seq<u8>, Seq<u8>>, ReplayError>(
                        ReplayError::TradingPairNotFound,
                    ));
                }
                return Err(ReplayError::TradingPairNotFound);
            },
        };
        proof {
            lemma_find_pair_wf(pairs@, trade_list@[i as int].pair);
        }
        let r = process_trade(state, &trade_list[i], config, epoch);
        match r {
            Ok(()) => {},
            Err(e) => {
                return Err(e);
            },
        }
        i = i + 1;
    }
    proof {
        assert(trade_list@.skip(n as int) =~= Seq::<Trade>::empty());
    }
    Ok(())
}

/// A configuration found in a well-formed allow-list has distinct assets.
proof fn lemma_find_pair_wf(pairs: Seq<(TradingPair, TradingPairConfig)>, pair: TradingPair)
    requires
        pairs_wf(pairs),
        find_pair_spec(pairs, pair).is_some(),
    ensures
        find_pair_spec(pairs, pair).unwrap().base_asset != find_pair_spec(
            pairs,
            pair,
        ).unwrap().quote_asset,
    decreases pairs.len(),
{
    if pairs.len() > 0 && pairs[0].0 != pair {
        assert(forall|i: int|
            0 <= i < pairs.skip(1).len() ==> pairs.skip(1)[i] == pairs[i + 1]);
        lemma_find_pair_wf(pairs.skip(1), pair);
    }
}

/// Applies one whole batch: rejects a stale stid before any mutation, then
/// settles every action strictly in order, collecting the withdrawal
/// records. An action error aborts the batch; the committed contents are
/// never touched here, so an aborted batch persists nothing.
pub fn process_batch(
    state: &mut OffchainState,
    batch: &UserActionBatch,
    state_info: &mut StateInfo,
    pairs: &Vec<(TradingPair, TradingPairConfig)>,
    ingress: &Vec<(u64, Vec<IngressMessage>)>,
    epoch: u32,
) -> (r: Result<Vec<Withdrawal>, ReplayError>)
    requires
        wf_ledger(old(state).view_map()),
        pairs_wf(pairs@),
    ensures
        final(state).committed == old(state).committed,
        final(state).wf() == old(state).wf(),
        wf_ledger(final(state).view_map()),
        old(state_info).stid >= batch.stid ==> *final(state) == *old(state) && *final(state_info)
            == *old(state_info),
        match apply_batch_spec(
            old(state).view_map(),
            *old(state_info),
            *batch,
            pairs@,
            ingress@,
            epoch,
        ) {
            Ok((m2, i2, ws)) => match r {
                Ok(v) => v@ == ws && final(state).view_map() == m2 && *final(state_info) == i2,
                Err(_) => false,
            },
            Err(e) => r == Err::<Vec<Withdrawal>, ReplayError>(e),
        },
{
    if state_info.stid >= batch.stid {
        return Err(ReplayError::InvalidStid);
    }
    let mut withdrawals: Vec<Withdrawal> = Vec::new();
    let n = batch.actions.len();
    let mut j: usize = 0;
    proof {
        assert(batch.actions@.skip(0) =~= batch.actions@);
    }
    while j < n
        invariant
            j <= n,
            n == batch.actions@.len(),
            old(state_info).stid < batch.stid,
            pairs_wf(pairs@),
            wf_ledger(state.view_map()),
            state.committed == old(state).committed,
            state.wf() == old(state).wf(),
            apply_actions(
                old(state).view_map(),
                *old(state_info),
                batch.actions@,
                pairs@,
                ingress@,
                epoch,
                Seq::empty(),
            ) == apply_actions(
                state.view_map(),
                *state_info,
                batch.actions@.skip(j as int),
                pairs@,
                ingress@,
                epoch,
                withdrawals@,
            ),
        decreases n - j,
    {
        proof {
            assert(batch.actions@.skip(j as int)[0] == batch.actions@[j as int]);
            assert(batch.actions@.skip(j as int).skip(1) =~= batch.actions@.skip(j + 1));
        }
        match &batch.actions[j] {
            UserAction::Trade(ts) => {
                match trades(ts, state, pairs, epoch) {
                    Ok(()) => {},
                    Err(e) => {
                        return Err(e);
                    },
                }
            },
            UserAction::Withdraw(req) => {
                match withdraw(req, state, 0) {
                    Ok(w) => {
                        withdrawals.push(w);
                    },
                    Err(e) => {
                        return Err(e);
                    },
                }
            },
            UserAction::WithdrawV1(req, stid) => {
                match withdraw(req, state, *stid) {
                    Ok(w) => {
                        withdrawals.push(w);
                    },
                    Err(e) => {
                        return Err(e);
                    },
                }
            },
            UserAction::BlockImport(blk) => {
                match import_blk(*blk, state, state_info, ingress) {
                    Ok(()) => {},
                    Err(e) => {
                        return Err(e);
                    },
                }
            },
            UserAction::Reset => {},
        }
        j = j + 1;
    }
    proof {
        assert(batch.actions@.skip(n as int) =~= Seq::<UserAction>::empty());
    }
    Ok(withdrawals)
}

/// Settles one withdrawal request: verifies its signature, debits the main
/// account, and emits the commitment record stamped with `stid`.
pub fn withdraw(request: &WithdrawalRequest, state: &mut OffchainState, stid: u64) -> (r: Result<
    Withdrawal,
    ReplayError,
>)
    requires
        wf_ledger(old(state).view_map()),
    ensures
        final(state).committed == old(state).committed,
        final(state).wf() == old(state).wf(),
        wf_ledger(final(state).view_map()),
        match apply_withdraw(old(state).view_map(), *request, stid) {
            Ok((m2, w)) => r == Ok::<Withdrawal, ReplayError>(w) && final(state).view_map() == m2,
            Err(e) => r == Err::<Withdrawal, ReplayError>(e) && *final(state) == *old(state),
        },
{
    let payload = crate::codec::encode_withdraw_payload(request);
    if !sr25519_verify(&request.signature, &payload, &request.public_key) {
        return Err(ReplayError::SignatureVerificationFailed);
    }
    match sub_balance(state, request.main, request.asset, request.amount) {
        Ok(()) => {},
        Err(e) => {
            return Err(e);
        },
    }
    Ok(
        Withdrawal {
            main_account: request.main,
            asset: request.asset,
            amount: request.amount,
            fees: request.fees,
            stid,
        },
    )
}

} // verus!
