//! Core data model of the settlement engine.
//!
//! Balance amounts are integer multiples of an asset's minimal unit, held in
//! `u128`; saturating arithmetic caps them at the numeric ceiling instead of
//! wrapping or panicking. Account and authority identifiers are plain `u64`
//! handles; the surrounding node maps them to real chain identities.
use vstd::prelude::*;

verus! {

/// Identifier of an asset: the chain's native token or a numbered asset.
#[derive(Clone, Copy, PartialEq, Eq, Structural, Debug)]
pub enum AssetId {
    Polkadex,
    Asset(u128),
}

/// A market: the asset being traded (base) priced in the quote asset.
#[derive(Clone, Copy, PartialEq, Eq, Structural, Debug)]
pub struct TradingPair {
    pub base: AssetId,
    pub quote: AssetId,
}

/// Which side of the book an order sits on: an `Ask` sells base for quote,
/// a `Bid` buys base with quote.
#[derive(Clone, Copy, PartialEq, Eq, Structural, Debug)]
pub enum OrderSide {
    Ask,
    Bid,
}

/// Governance-registered configuration of an allow-listed market.
#[derive(Clone, Copy, PartialEq, Eq, Structural, Debug)]
pub struct TradingPairConfig {
    pub base_asset: AssetId,
    pub quote_asset: AssetId,
}

/// The replay cursor, persisted in the ledger store under a reserved key so
/// that it commits atomically with balances.
#[derive(Clone, Copy, PartialEq, Eq, Structural, Debug)]
pub struct StateInfo {
    /// Last on-chain block whose deposit events were folded in.
    pub last_block: u64,
    /// Last processed worker nonce.
    pub worker_nonce: u64,
    /// Last applied global sequence id within the batch stream.
    pub stid: u64,
    /// Last fully processed batch number.
    pub snapshot_id: u64,
}

impl StateInfo {
    /// The cursor of a node that has never replayed anything.
    pub fn new_default() -> (r: StateInfo)
        ensures
            r == (StateInfo { last_block: 0u64, worker_nonce: 0u64, stid: 0u64, snapshot_id: 0u64 }),
    {
        StateInfo { last_block: 0, worker_nonce: 0, stid: 0, snapshot_id: 0 }
    }
}

/// One matched trade between a maker and a taker on a pair, together with the
/// fee figures charged to each side (denominated in the asset each side
/// receives).
#[derive(Clone, Copy, PartialEq, Eq, Structural, Debug)]
pub struct Trade {
    /// Main account of the maker.
    pub maker: u64,
    /// Main account of the taker.
    pub taker: u64,
    /// The side of the maker's resting order; the taker took the other side.
    pub maker_side: OrderSide,
    pub pair: TradingPair,
    /// Price in quote units per base unit.
    pub price: u128,
    /// Amount of base units exchanged.
    pub amount: u128,
    pub maker_fee: u128,
    pub taker_fee: u128,
}

/// A signed client intent to withdraw funds from the exchange.
///
/// The request carries the raw sr25519 public key it claims to be signed
/// with; binding that key to the main account's registered proxies is the
/// caller's concern, outside this engine.
#[derive(Clone, PartialEq, Eq, Debug)]
pub struct WithdrawalRequest {
    /// Main account whose balance is debited.
    pub main: u64,
    /// Signing delegate that authorized the request.
    pub proxy: u64,
    pub asset: AssetId,
    pub amount: u128,
    /// Fee figure carried into the settled withdrawal record.
    pub fees: u128,
    /// sr25519 public key the signature is checked against.
    pub public_key: [u8; 32],
    /// sr25519 signature over the request payload encoding.
    pub signature: [u8; 64],
}

/// A settled ledger debit, included in the eventual snapshot for on-chain
/// claim processing.
#[derive(Clone, Copy, PartialEq, Eq, Structural, Debug)]
pub struct Withdrawal {
    pub main_account: u64,
    pub asset: AssetId,
    pub amount: u128,
    pub fees: u128,
    pub stid: u64,
}

/// An on-chain event queued for a block and consumed during block import.
#[derive(Clone, Copy, PartialEq, Eq, Structural, Debug)]
pub enum IngressMessage {
    /// An on-chain deposit to credit: account, asset, amount.
    Deposit(u64, AssetId, u128),
    /// Any other ingress event; block import ignores it.
    Other,
}

/// One user action inside a batch.
#[derive(Clone, PartialEq, Eq, Debug)]
pub enum UserAction {
    /// Settle a list of matched trades.
    Trade(Vec<Trade>),
    /// Settle a withdrawal request; the commitment record takes stid 0.
    Withdraw(WithdrawalRequest),
    /// Fold the deposit events of the given block number into the ledger.
    BlockImport(u64),
    /// Reset marker; a no-op for this worker path.
    Reset,
    /// Settle a withdrawal request stamping the given stid on the record.
    WithdrawV1(WithdrawalRequest, u64),
}

/// A numbered, ordered set of user actions produced by the aggregator.
#[derive(Clone, PartialEq, Eq, Debug)]
pub struct UserActionBatch {
    /// Global sequence id; must strictly exceed the last applied stid.
    pub stid: u64,
    /// The batch's own sequence number in the batch stream.
    pub snapshot_id: u64,
    pub actions: Vec<UserAction>,
}

/// The externally anchored commitment artifact built after a batch replay.
#[derive(Clone, PartialEq, Eq, Debug)]
pub struct SnapshotSummary {
    pub validator_set_id: u64,
    pub snapshot_id: u64,
    /// The ledger store's commit root after applying everything up to and
    /// including this batch.
    pub state_hash: [u8; 32],
    /// The stid of the applied batch.
    pub state_change_id: u64,
    pub last_processed_blk: u64,
    pub withdrawals: Vec<Withdrawal>,
}

/// Per-epoch liquidity-mining parameters, copied from the expected
/// configuration when an epoch starts.
#[derive(Clone, Copy, PartialEq, Eq, Structural, Debug)]
pub struct LmpEpochConfig {
    pub total_liquidity_mining_rewards: u128,
    pub total_trading_rewards: u128,
}

/// The outcome of one replay cycle that did not error.
#[derive(Clone, PartialEq, Eq, Debug)]
pub enum CycleOutcome {
    /// Another worker held the guard; nothing was touched.
    AnotherWorkerBusy,
    /// The requested batch was already processed: the stored summary, if one
    /// was retained, is handed back for resubmission without any replay.
    Resubmitted(Option<SnapshotSummary>),
    /// The aggregator had no batch to serve; the node is caught up for now.
    CaughtUp,
    /// The batch was applied and a summary built and retained: the caller
    /// signs it with the authority key and submits it, naming the signer's
    /// index in the active set.
    Applied(SnapshotSummary, u64),
    /// The batch was applied; the node is not a validator, so no summary is
    /// owed.
    AppliedNotValidator,
}

/// The closed failure taxonomy of a replay cycle. Every error aborts only the
/// in-flight cycle; previously committed state stays intact.
#[derive(Clone, Copy, PartialEq, Eq, Structural, Debug)]
pub enum ReplayError {
    /// The batch's stid does not strictly exceed the stored stid: a stale or
    /// reordered batch, dropped before any mutation.
    InvalidStid,
    /// A block import skipped a block number.
    BlockOutOfSequence,
    /// A debit would make a balance negative; rejected with no mutation.
    InsufficientBalance,
    /// A withdrawal request's signature does not verify.
    SignatureVerificationFailed,
    /// A trade names a market that is not allow-listed.
    TradingPairNotFound,
    /// The node is a validator but holds no key of the active set.
    NoActiveKeys,
    /// The selected key's index in the active set could not be determined.
    SignerIndexNotFound,
    /// A reserved ledger entry failed to decode; never reached from a
    /// well-formed store.
    InvalidStoredValue,
}

} // verus!
