use ocex_replay::codec::{decode_u128, encode_table, decode_table, make_lmp_key};
use ocex_replay::ledger::sat_mul_u128;
use ocex_replay::lmp::{
    update_trade_volume_by_main_account, TRADING_VOLUME_METRIC,
};
use ocex_replay::settlement::{add_balance, get_balance, process_trade, sub_balance};
use ocex_replay::store::OffchainState;
use ocex_replay::types::{AssetId, OrderSide, ReplayError, Trade, TradingPair, TradingPairConfig};

const ALICE: u64 = 1;
const BOB: u64 = 2;
const PDEX: AssetId = AssetId::Polkadex;
const USDT: AssetId = AssetId::Asset(7);

fn pair() -> TradingPair {
    TradingPair { base: PDEX, quote: USDT }
}

fn config() -> TradingPairConfig {
    TradingPairConfig { base_asset: PDEX, quote_asset: USDT }
}

#[test]
fn deposit_credits_the_exact_amount() {
    let mut st = OffchainState::new();
    add_balance(&mut st, ALICE, PDEX, 100).unwrap();
    assert_eq!(get_balance(&st, ALICE, PDEX), 100);
    add_balance(&mut st, ALICE, PDEX, 23).unwrap();
    assert_eq!(get_balance(&st, ALICE, PDEX), 123);
    assert_eq!(get_balance(&st, ALICE, USDT), 0);
    assert_eq!(get_balance(&st, BOB, PDEX), 0);
}

#[test]
fn credit_saturates_at_the_ceiling() {
    let mut st = OffchainState::new();
    add_balance(&mut st, ALICE, PDEX, u128::MAX - 5).unwrap();
    add_balance(&mut st, ALICE, PDEX, 100).unwrap();
    assert_eq!(get_balance(&st, ALICE, PDEX), u128::MAX);
}

#[test]
fn insufficient_debit_is_rejected_with_nothing_changed() {
    let mut st = OffchainState::new();
    add_balance(&mut st, ALICE, PDEX, 50).unwrap();
    let root_before = st.commit();
    let r = sub_balance(&mut st, ALICE, PDEX, 51);
    assert_eq!(r, Err(ReplayError::InsufficientBalance));
    assert_eq!(get_balance(&st, ALICE, PDEX), 50);
    let root_after = st.commit();
    assert_eq!(root_before, root_after);
}

#[test]
fn debit_of_the_full_balance_succeeds() {
    let mut st = OffchainState::new();
    add_balance(&mut st, ALICE, PDEX, 50).unwrap();
    sub_balance(&mut st, ALICE, PDEX, 50).unwrap();
    assert_eq!(get_balance(&st, ALICE, PDEX), 0);
}

#[test]
fn trade_moves_base_and_quote_conservatively() {
    // A bid taker buys 10 base at price 2 quote: the taker pays 20 quote and
    // receives 10 base; the maker gives 10 base and receives 20 quote.
    let mut st = OffchainState::new();
    add_balance(&mut st, ALICE, PDEX, 100).unwrap(); // maker sells base
    add_balance(&mut st, BOB, USDT, 100).unwrap(); // taker pays quote
    let trade = Trade {
        maker: ALICE,
        taker: BOB,
        maker_side: OrderSide::Ask,
        pair: pair(),
        price: 2,
        amount: 10,
        maker_fee: 0,
        taker_fee: 0,
    };
    process_trade(&mut st, &trade, config(), 0).unwrap();
    assert_eq!(get_balance(&st, ALICE, PDEX), 90);
    assert_eq!(get_balance(&st, ALICE, USDT), 20);
    assert_eq!(get_balance(&st, BOB, PDEX), 10);
    assert_eq!(get_balance(&st, BOB, USDT), 80);
}

#[test]
fn trade_with_uncovered_leg_is_rejected_atomically() {
    let mut st = OffchainState::new();
    add_balance(&mut st, ALICE, PDEX, 100).unwrap();
    add_balance(&mut st, BOB, USDT, 5).unwrap(); // cannot pay 20 quote
    let trade = Trade {
        maker: ALICE,
        taker: BOB,
        maker_side: OrderSide::Ask,
        pair: pair(),
        price: 2,
        amount: 10,
        maker_fee: 0,
        taker_fee: 0,
    };
    let r = process_trade(&mut st, &trade, config(), 0);
    assert_eq!(r, Err(ReplayError::InsufficientBalance));
    assert_eq!(get_balance(&st, ALICE, PDEX), 100);
    assert_eq!(get_balance(&st, ALICE, USDT), 0);
    assert_eq!(get_balance(&st, BOB, PDEX), 0);
    assert_eq!(get_balance(&st, BOB, USDT), 5);
}

fn read_cell(st: &OffchainState, epoch: u32, metric: u8, main: u64) -> u128 {
    let key = make_lmp_key(epoch, PDEX, USDT, metric, main);
    match st.get(&key) {
        None => 0,
        Some(bytes) => decode_u128(bytes),
    }
}

#[test]
fn trading_volume_accumulates_across_trades() {
    // Two accumulations of 30 and 12 for the same epoch, market and account
    // add up to 42.
    let mut st = OffchainState::new();
    update_trade_volume_by_main_account(&mut st, 3, &config(), 30, ALICE).unwrap();
    update_trade_volume_by_main_account(&mut st, 3, &config(), 12, ALICE).unwrap();
    assert_eq!(read_cell(&st, 3, TRADING_VOLUME_METRIC, ALICE), 42);
    // Another epoch's cell is untouched.
    assert_eq!(read_cell(&st, 4, TRADING_VOLUME_METRIC, ALICE), 0);
}

#[test]
fn trading_volume_saturates_never_wraps() {
    let mut st = OffchainState::new();
    update_trade_volume_by_main_account(&mut st, 1, &config(), u128::MAX - 1, ALICE).unwrap();
    update_trade_volume_by_main_account(&mut st, 1, &config(), 1000, ALICE).unwrap();
    assert_eq!(read_cell(&st, 1, TRADING_VOLUME_METRIC, ALICE), u128::MAX);
}

#[test]
fn trade_feeds_all_three_metrics() {
    let mut st = OffchainState::new();
    add_balance(&mut st, ALICE, PDEX, 100).unwrap();
    add_balance(&mut st, BOB, USDT, 100).unwrap();
    let trade = Trade {
        maker: ALICE,
        taker: BOB,
        maker_side: OrderSide::Ask,
        pair: pair(),
        price: 2,
        amount: 10,
        maker_fee: 3,
        taker_fee: 5,
    };
    process_trade(&mut st, &trade, config(), 7).unwrap();
    // Volume 20 counts for both main accounts, maker volume only for Alice.
    assert_eq!(read_cell(&st, 7, ocex_replay::lmp::TRADING_VOLUME_METRIC, ALICE), 20);
    assert_eq!(read_cell(&st, 7, ocex_replay::lmp::TRADING_VOLUME_METRIC, BOB), 20);
    assert_eq!(read_cell(&st, 7, ocex_replay::lmp::MAKER_VOLUME_METRIC, ALICE), 20);
    assert_eq!(read_cell(&st, 7, ocex_replay::lmp::MAKER_VOLUME_METRIC, BOB), 0);
    // Ask-side maker fees stay in quote terms; taker fees convert at price.
    assert_eq!(read_cell(&st, 7, ocex_replay::lmp::FEES_PAID_METRIC, ALICE), 3);
    assert_eq!(read_cell(&st, 7, ocex_replay::lmp::FEES_PAID_METRIC, BOB), 10);
}

#[test]
fn bid_maker_fees_convert_and_ask_taker_fees_stay_quoted() {
    // With the maker on the bid side, the maker bought base, so the maker's
    // fee converts to quote terms at the trade price; the taker sold base,
    // so the taker's fee is already quoted and accumulates as-is.
    let mut st = OffchainState::new();
    add_balance(&mut st, ALICE, USDT, 100).unwrap(); // maker pays quote
    add_balance(&mut st, BOB, PDEX, 100).unwrap(); // taker sells base
    let trade = Trade {
        maker: ALICE,
        taker: BOB,
        maker_side: OrderSide::Bid,
        pair: pair(),
        price: 2,
        amount: 10,
        maker_fee: 4,
        taker_fee: 3,
    };
    process_trade(&mut st, &trade, config(), 9).unwrap();
    assert_eq!(read_cell(&st, 9, ocex_replay::lmp::FEES_PAID_METRIC, ALICE), 8);
    assert_eq!(read_cell(&st, 9, ocex_replay::lmp::FEES_PAID_METRIC, BOB), 3);
}

#[test]
fn balance_table_bytes_round_trip() {
    let table = vec![(PDEX, 5u128), (USDT, u128::MAX), (AssetId::Asset(0), 0u128)];
    let bytes = encode_table(&table);
    assert_eq!(decode_table(&bytes), Some(table));
    // A truncated encoding is rejected.
    let mut cut = bytes.clone();
    cut.pop();
    assert_eq!(decode_table(&cut), None);
}

#[test]
fn saturating_multiplication_caps() {
    assert_eq!(sat_mul_u128(0, u128::MAX), 0);
    assert_eq!(sat_mul_u128(3, 7), 21);
    assert_eq!(sat_mul_u128(u128::MAX, 2), u128::MAX);
}
