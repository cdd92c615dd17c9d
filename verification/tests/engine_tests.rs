use ocex_replay::codec::encode_summary;
use ocex_replay::engine::{Pallet, GENESIS_SYNC_BLOCK};
use ocex_replay::support::{
    get_account_generation_key, get_parameters_for_reward_cycle, AlternateTokenSwapper,
    DealWithFees, MockOnTimestampSet, WeightToFee,
};
use ocex_replay::types::{
    AssetId, CycleOutcome, IngressMessage, ReplayError, SnapshotSummary, TradingPair,
    TradingPairConfig, UserAction, UserActionBatch, Withdrawal,
};

const ALICE: u64 = 1;
const PDEX: AssetId = AssetId::Polkadex;
const KEY: u64 = 77;

fn validator_engine(snapshot_nonce: u64) -> Pallet {
    Pallet::new(snapshot_nonce, 5, vec![33, KEY, 99])
}

fn reset_batch(nonce: u64, stid: u64) -> UserActionBatch {
    UserActionBatch { stid, snapshot_id: nonce, actions: vec![UserAction::Reset] }
}

fn deposit_batch(nonce: u64, stid: u64, blk: u64) -> UserActionBatch {
    UserActionBatch { stid, snapshot_id: nonce, actions: vec![UserAction::BlockImport(blk)] }
}

#[test]
fn busy_worker_exits_without_touching_anything() {
    let mut e = validator_engine(0);
    e.worker_status = true;
    let r = e.run_on_chain_validation(&vec![KEY], true, &Vec::new(), &Vec::new());
    assert_eq!(r, Ok(CycleOutcome::AnotherWorkerBusy));
    assert_eq!(e.snapshots.len(), 0);
}

#[test]
fn validator_without_active_key_cannot_run() {
    let mut e = validator_engine(0);
    let r = e.run_on_chain_validation(&vec![1000], true, &Vec::new(), &Vec::new());
    assert_eq!(r, Err(ReplayError::NoActiveKeys));
    assert!(!e.worker_status);
}

#[test]
fn no_batch_available_means_caught_up() {
    let mut e = validator_engine(0);
    let r = e.run_on_chain_validation(&vec![KEY], true, &Vec::new(), &Vec::new());
    assert_eq!(r, Ok(CycleOutcome::CaughtUp));
    // The cursor records that nothing up to the requested nonce is missing.
    assert_eq!(e.get_state_info().snapshot_id, 0);
}

#[test]
fn applied_batch_builds_and_retains_the_summary() {
    let mut e = validator_engine(0);
    let batches = vec![reset_batch(1, 10)];
    let r = e.run_on_chain_validation(&vec![KEY], true, &batches, &Vec::new());
    match r {
        Ok(CycleOutcome::Applied(s, idx)) => {
            assert_eq!(s.snapshot_id, 1);
            assert_eq!(s.state_change_id, 10);
            assert_eq!(s.validator_set_id, 5);
            assert_eq!(s.state_hash, e.trie_root);
            assert_eq!(s.withdrawals, Vec::<Withdrawal>::new());
            // KEY sits at position 1 of the active set.
            assert_eq!(idx, 1);
            assert_eq!(e.snapshots.len(), 1);
            assert_eq!(e.snapshots[0].0, 1);
            assert_eq!(e.snapshots[0].1.state_hash, s.state_hash);
        },
        other => panic!("expected an applied summary, got {:?}", other),
    }
    let info = e.get_state_info();
    assert_eq!(info.snapshot_id, 1);
    assert_eq!(info.stid, 10);
}

#[test]
fn non_validator_applies_without_a_summary() {
    let mut e = validator_engine(0);
    let batches = vec![reset_batch(1, 10)];
    let r = e.run_on_chain_validation(&Vec::new(), false, &batches, &Vec::new());
    assert_eq!(r, Ok(CycleOutcome::AppliedNotValidator));
    assert_eq!(e.snapshots.len(), 0);
    assert_eq!(e.get_state_info().snapshot_id, 1);
}

#[test]
fn resubmission_is_idempotent() {
    // First cycle applies batch 1 and signs off on a state hash; a second
    // cycle for the same nonce (after the node's restart clears the worker
    // latch) resubmits the identical summary without replaying anything.
    let mut e = validator_engine(0);
    let batches = vec![deposit_batch(1, 10, GENESIS_SYNC_BLOCK + 1)];
    let ingress = vec![(GENESIS_SYNC_BLOCK + 1, vec![IngressMessage::Deposit(ALICE, PDEX, 100)])];
    // A cold start with a gap of one goes through catch-up bookkeeping only
    // when the gap is two or more; nonce 1 is applied directly, so seed the
    // block cursor first.
    let info = ocex_replay::types::StateInfo {
        last_block: GENESIS_SYNC_BLOCK,
        worker_nonce: 0,
        stid: 0,
        snapshot_id: 0,
    };
    Pallet::store_state_info(info, &mut e.state);
    e.state.commit();
    let first = e.run_on_chain_validation(&vec![KEY], true, &batches, &ingress);
    let first_hash = match first {
        Ok(CycleOutcome::Applied(s, _)) => s.state_hash,
        other => panic!("expected an applied summary, got {:?}", other),
    };
    assert_eq!(e.get_offchain_balance(ALICE), vec![(PDEX, 100)]);
    // The node restarts: the worker latch clears, the ledger persists.
    e.worker_status = false;
    let second = e.run_on_chain_validation(&vec![KEY], true, &batches, &ingress);
    match second {
        Ok(CycleOutcome::Resubmitted(Some(s))) => {
            assert_eq!(s.state_hash, first_hash);
            assert_eq!(s.snapshot_id, 1);
        },
        other => panic!("expected a resubmission, got {:?}", other),
    }
    // The second cycle mutated no balances and left the root alone.
    assert_eq!(e.get_offchain_balance(ALICE), vec![(PDEX, 100)]);
    assert_eq!(e.trie_root, first_hash);
}

#[test]
fn catch_up_converges_with_stepwise_replay() {
    let batches = vec![
        deposit_batch(1, 10, GENESIS_SYNC_BLOCK + 1),
        deposit_batch(2, 20, GENESIS_SYNC_BLOCK + 2),
        reset_batch(3, 30),
    ];
    let ingress = vec![
        (GENESIS_SYNC_BLOCK + 1, vec![IngressMessage::Deposit(ALICE, PDEX, 100)]),
        (GENESIS_SYNC_BLOCK + 2, vec![IngressMessage::Deposit(ALICE, PDEX, 50)]),
    ];
    // One pass: a cold-start engine three batches behind catches up in a
    // single cycle.
    let mut a = validator_engine(2);
    let ra = a.run_on_chain_validation(&vec![KEY], true, &batches, &ingress);
    assert!(matches!(ra, Ok(CycleOutcome::Applied(_, _))));
    // Stepwise: a second engine replays the same batches one nonce per
    // cycle, committing in between, with the worker latch cleared per tick.
    let mut b = validator_engine(0);
    let seed = ocex_replay::types::StateInfo {
        last_block: GENESIS_SYNC_BLOCK,
        worker_nonce: 0,
        stid: 0,
        snapshot_id: 0,
    };
    Pallet::store_state_info(seed, &mut b.state);
    b.state.commit();
    for nonce in 1..=3u64 {
        b.snapshot_nonce = nonce - 1;
        b.worker_status = false;
        let r = b.run_on_chain_validation(&vec![KEY], true, &batches, &ingress);
        assert!(matches!(r, Ok(CycleOutcome::Applied(_, _))));
    }
    assert_eq!(a.trie_root, b.trie_root);
    assert_eq!(a.get_offchain_balance(ALICE), vec![(PDEX, 150)]);
    assert_eq!(b.get_offchain_balance(ALICE), vec![(PDEX, 150)]);
}

#[test]
fn missing_gap_batch_stops_catch_up_after_prior_commits() {
    // Three nonces behind, but the aggregator only serves nonce 1: the
    // cycle commits batch 1, then reports itself caught up for now.
    let mut e = validator_engine(2);
    let batches = vec![reset_batch(1, 10)];
    let r = e.run_on_chain_validation(&vec![KEY], true, &batches, &Vec::new());
    assert_eq!(r, Ok(CycleOutcome::CaughtUp));
    let info = e.get_state_info();
    assert_eq!(info.snapshot_id, 1);
    assert_eq!(info.stid, 10);
}

#[test]
fn resubmission_without_a_retained_summary_hands_back_nothing() {
    // A non-validator run retains no summary; a later cycle for the same
    // nonce still short-circuits, with nothing to resend.
    let mut e = validator_engine(0);
    let batches = vec![reset_batch(1, 10)];
    let r = e.run_on_chain_validation(&Vec::new(), false, &batches, &Vec::new());
    assert_eq!(r, Ok(CycleOutcome::AppliedNotValidator));
    e.worker_status = false;
    let r2 = e.run_on_chain_validation(&Vec::new(), false, &batches, &Vec::new());
    assert_eq!(r2, Ok(CycleOutcome::Resubmitted(None)));
}

#[test]
fn failing_batch_leaves_committed_state_intact() {
    let mut e = validator_engine(0);
    // Block 5 cannot follow a cursor still at the genesis sync block.
    let batches = vec![deposit_batch(1, 10, 5)];
    let seed = ocex_replay::types::StateInfo {
        last_block: GENESIS_SYNC_BLOCK,
        worker_nonce: 0,
        stid: 0,
        snapshot_id: 0,
    };
    Pallet::store_state_info(seed, &mut e.state);
    let root_before = e.state.commit();
    let r = e.run_on_chain_validation(&vec![KEY], true, &batches, &Vec::new());
    assert_eq!(r, Err(ReplayError::BlockOutOfSequence));
    assert_eq!(e.state.commit(), root_before);
}

#[test]
fn signer_index_finds_the_first_position() {
    assert_eq!(Pallet::calculate_signer_index(&vec![5, 7, 9], 7), Some(1));
    assert_eq!(Pallet::calculate_signer_index(&vec![5, 7, 9], 5), Some(0));
    assert_eq!(Pallet::calculate_signer_index(&vec![5, 7, 9], 8), None);
    assert_eq!(Pallet::calculate_signer_index(&Vec::new(), 8), None);
}

#[test]
fn trading_pair_registration_checks_the_configuration() {
    let mut e = validator_engine(0);
    let pair = TradingPair { base: PDEX, quote: AssetId::Asset(7) };
    let good = TradingPairConfig { base_asset: PDEX, quote_asset: AssetId::Asset(7) };
    let mismatched = TradingPairConfig { base_asset: AssetId::Asset(7), quote_asset: PDEX };
    let degenerate_pair = TradingPair { base: PDEX, quote: PDEX };
    let degenerate = TradingPairConfig { base_asset: PDEX, quote_asset: PDEX };
    assert!(e.register_trading_pair(pair, good));
    assert!(!e.register_trading_pair(pair, mismatched));
    assert!(!e.register_trading_pair(degenerate_pair, degenerate));
    assert_eq!(e.trading_pairs.len(), 1);
}

#[test]
fn epoch_rollover_marks_finalization_and_copies_the_config() {
    let mut e = validator_engine(0);
    assert!(Pallet::should_start_new_epoch(0));
    assert!(Pallet::should_start_new_epoch(201600));
    assert!(!Pallet::should_start_new_epoch(201601));
    assert!(Pallet::should_stop_accepting_lmp_withdrawals(194400));
    assert!(!Pallet::should_stop_accepting_lmp_withdrawals(194401));
    let notify = e.start_new_epoch();
    assert_eq!(notify, 1);
    assert_eq!(e.lmp_epoch, 1);
    assert_eq!(e.finalize_lmp_score, Some(0));
    assert_eq!(e.lmp_configs.len(), 1);
    assert_eq!(e.lmp_configs[0].0, 1);
    let notify2 = e.start_new_epoch();
    assert_eq!(notify2, 2);
    // The pending finalization marker is not overwritten.
    assert_eq!(e.finalize_lmp_score, Some(0));
    assert_eq!(e.stop_accepting_lmp_withdrawals(), 2);
}

#[test]
fn summary_encoding_is_exact() {
    let s = SnapshotSummary {
        validator_set_id: 1,
        snapshot_id: 2,
        state_hash: [0xab; 32],
        state_change_id: 3,
        last_processed_blk: 4,
        withdrawals: vec![Withdrawal {
            main_account: 5,
            asset: AssetId::Asset(6),
            amount: 7,
            fees: 8,
            stid: 9,
        }],
    };
    let mut expected: Vec<u8> = Vec::new();
    expected.extend_from_slice(&1u64.to_le_bytes());
    expected.extend_from_slice(&2u64.to_le_bytes());
    expected.extend_from_slice(&[0xab; 32]);
    expected.extend_from_slice(&3u64.to_le_bytes());
    expected.extend_from_slice(&4u64.to_le_bytes());
    expected.extend_from_slice(&1u64.to_le_bytes()); // one withdrawal
    expected.extend_from_slice(&5u64.to_le_bytes());
    expected.push(1u8); // numbered-asset tag
    expected.extend_from_slice(&6u128.to_le_bytes());
    expected.extend_from_slice(&7u128.to_le_bytes());
    expected.extend_from_slice(&8u128.to_le_bytes());
    expected.extend_from_slice(&9u64.to_le_bytes());
    assert_eq!(encode_summary(&s), expected);
}

#[test]
fn support_adapters_behave_as_specified() {
    let c = WeightToFee::polynomial(125_000_000);
    assert_eq!(c.degree, 1);
    assert!(!c.negative);
    assert_eq!(c.coeff_integer, 800);
    assert_eq!(c.coeff_frac_num, 0);
    assert_eq!(c.coeff_frac_den, 1_250_000_000);
    let mut ts = MockOnTimestampSet { captured_moment: None };
    ts.on_timestamp_set(123456);
    assert_eq!(ts.captured_moment, Some(123456));
    assert_eq!(AlternateTokenSwapper::swap(987), 987);
    assert_eq!(DealWithFees::on_unbalanceds(vec![1, 2, 3]), 0);
    assert_eq!(get_account_generation_key(), 1);
    assert_eq!(get_parameters_for_reward_cycle(), (20, 120, 25, 1));
}
