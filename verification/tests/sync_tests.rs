use ocex_replay::codec::encode_withdraw_payload;
use ocex_replay::settlement::{add_balance, get_balance};
use ocex_replay::store::OffchainState;
use ocex_replay::sync::{import_blk, process_batch, withdraw};
use ocex_replay::types::{
    AssetId, IngressMessage, ReplayError, StateInfo, Trade, TradingPair, TradingPairConfig,
    UserAction, UserActionBatch, WithdrawalRequest,
};
use sp_core::Pair;

const ALICE: u64 = 1;
const PDEX: AssetId = AssetId::Polkadex;

fn signed_request(main: u64, asset: AssetId, amount: u128, fees: u128) -> WithdrawalRequest {
    let mut req = WithdrawalRequest {
        main,
        proxy: main,
        asset,
        amount,
        fees,
        public_key: [0u8; 32],
        signature: [0u8; 64],
    };
    let pair = sp_core::sr25519::Pair::from_seed_slice(&[7u8; 32]).unwrap();
    let payload = encode_withdraw_payload(&req);
    let sig = pair.sign(&payload);
    req.public_key = pair.public().0;
    req.signature = sig.0;
    req
}

#[test]
fn withdrawal_debits_and_emits_the_record() {
    let mut st = OffchainState::new();
    add_balance(&mut st, ALICE, PDEX, 100).unwrap();
    let req = signed_request(ALICE, PDEX, 40, 2);
    let w = withdraw(&req, &mut st, 99).unwrap();
    assert_eq!(get_balance(&st, ALICE, PDEX), 60);
    assert_eq!(w.main_account, ALICE);
    assert_eq!(w.asset, PDEX);
    assert_eq!(w.amount, 40);
    assert_eq!(w.fees, 2);
    assert_eq!(w.stid, 99);
}

#[test]
fn tampered_signature_is_rejected() {
    let mut st = OffchainState::new();
    add_balance(&mut st, ALICE, PDEX, 100).unwrap();
    let mut req = signed_request(ALICE, PDEX, 40, 0);
    req.signature[0] ^= 0xff;
    let r = withdraw(&req, &mut st, 0);
    assert_eq!(r, Err(ReplayError::SignatureVerificationFailed));
    assert_eq!(get_balance(&st, ALICE, PDEX), 100);
}

#[test]
fn signed_overdraft_is_rejected_with_balance_and_root_unchanged() {
    let mut st = OffchainState::new();
    add_balance(&mut st, ALICE, PDEX, 100).unwrap();
    let root_before = st.commit();
    let req = signed_request(ALICE, PDEX, 101, 0);
    let r = withdraw(&req, &mut st, 0);
    assert_eq!(r, Err(ReplayError::InsufficientBalance));
    assert_eq!(get_balance(&st, ALICE, PDEX), 100);
    assert_eq!(st.commit(), root_before);
}

#[test]
fn block_import_requires_the_strict_successor() {
    let mut st = OffchainState::new();
    let mut info = StateInfo { last_block: 10, worker_nonce: 0, stid: 0, snapshot_id: 0 };
    let ingress = vec![
        (11u64, vec![IngressMessage::Deposit(ALICE, PDEX, 100)]),
        (12u64, vec![IngressMessage::Deposit(ALICE, PDEX, 7), IngressMessage::Other]),
    ];
    // Importing block 12 while the cursor sits at 10 skips block 11.
    let r = import_blk(12, &mut st, &mut info, &ingress);
    assert_eq!(r, Err(ReplayError::BlockOutOfSequence));
    assert_eq!(info.last_block, 10);
    assert_eq!(get_balance(&st, ALICE, PDEX), 0);
    // Importing 11 then 12 succeeds and folds the deposits in.
    import_blk(11, &mut st, &mut info, &ingress).unwrap();
    assert_eq!(info.last_block, 11);
    assert_eq!(get_balance(&st, ALICE, PDEX), 100);
    import_blk(12, &mut st, &mut info, &ingress).unwrap();
    assert_eq!(info.last_block, 12);
    assert_eq!(get_balance(&st, ALICE, PDEX), 107);
}

#[test]
fn block_without_a_queue_still_advances_the_cursor() {
    let mut st = OffchainState::new();
    let mut info = StateInfo { last_block: 4, worker_nonce: 0, stid: 0, snapshot_id: 0 };
    import_blk(5, &mut st, &mut info, &Vec::new()).unwrap();
    assert_eq!(info.last_block, 5);
}

#[test]
fn stale_stid_batch_is_dropped_before_any_mutation() {
    let mut st = OffchainState::new();
    add_balance(&mut st, ALICE, PDEX, 100).unwrap();
    let mut info = StateInfo { last_block: 0, worker_nonce: 0, stid: 9, snapshot_id: 0 };
    let batch = UserActionBatch {
        stid: 9, // not strictly greater than the stored stid
        snapshot_id: 1,
        actions: vec![UserAction::BlockImport(1)],
    };
    let r = process_batch(&mut st, &batch, &mut info, &Vec::new(), &Vec::new(), 0);
    assert_eq!(r, Err(ReplayError::InvalidStid));
    assert_eq!(info.stid, 9);
    assert_eq!(get_balance(&st, ALICE, PDEX), 100);
}

#[test]
fn batch_settles_trades_withdrawals_and_imports_in_order() {
    let mut st = OffchainState::new();
    let pair = TradingPair { base: PDEX, quote: AssetId::Asset(7) };
    let pairs = vec![(pair, TradingPairConfig { base_asset: PDEX, quote_asset: AssetId::Asset(7) })];
    add_balance(&mut st, ALICE, PDEX, 50).unwrap();
    add_balance(&mut st, 2, AssetId::Asset(7), 50).unwrap();
    let trade = Trade {
        maker: ALICE,
        taker: 2,
        maker_side: ocex_replay::types::OrderSide::Ask,
        pair,
        price: 2,
        amount: 10,
        maker_fee: 0,
        taker_fee: 0,
    };
    let req = signed_request(ALICE, PDEX, 15, 0);
    let mut info = StateInfo { last_block: 20, worker_nonce: 0, stid: 0, snapshot_id: 0 };
    let ingress = vec![(21u64, vec![IngressMessage::Deposit(ALICE, PDEX, 5)])];
    let batch = UserActionBatch {
        stid: 1,
        snapshot_id: 1,
        actions: vec![
            UserAction::Trade(vec![trade]),
            UserAction::WithdrawV1(req, 42),
            UserAction::BlockImport(21),
            UserAction::Reset,
        ],
    };
    let ws = process_batch(&mut st, &batch, &mut info, &pairs, &ingress, 0).unwrap();
    assert_eq!(ws.len(), 1);
    assert_eq!(ws[0].stid, 42);
    assert_eq!(ws[0].amount, 15);
    // 50 - 10 traded - 15 withdrawn + 5 deposited.
    assert_eq!(get_balance(&st, ALICE, PDEX), 30);
    assert_eq!(get_balance(&st, ALICE, AssetId::Asset(7)), 20);
    assert_eq!(info.last_block, 21);
}

#[test]
fn unknown_market_aborts_the_batch() {
    let mut st = OffchainState::new();
    let pair = TradingPair { base: PDEX, quote: AssetId::Asset(7) };
    let trade = Trade {
        maker: ALICE,
        taker: 2,
        maker_side: ocex_replay::types::OrderSide::Bid,
        pair,
        price: 1,
        amount: 1,
        maker_fee: 0,
        taker_fee: 0,
    };
    let mut info = StateInfo { last_block: 0, worker_nonce: 0, stid: 0, snapshot_id: 0 };
    let batch = UserActionBatch {
        stid: 1,
        snapshot_id: 1,
        actions: vec![UserAction::Trade(vec![trade])],
    };
    let r = process_batch(&mut st, &batch, &mut info, &Vec::new(), &Vec::new(), 0);
    assert_eq!(r, Err(ReplayError::TradingPairNotFound));
}
