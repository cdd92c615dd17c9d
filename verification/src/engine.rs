//! The replay engine: the node-local state the sync controller drives — the
//! ledger store, the persisted root pointer, the worker guard, the validator
//! set, the allow-listed markets, the liquidity-mining epoch, and the
//! retained signed-summary storage.
//!
//! The surrounding node performs all outside work: it fetches batches and
//! deposit queues, signs the summary the cycle hands back, and submits it.
use vstd::prelude::*;

use crate::codec::{info_enc, state_info_key};
use crate::ledger::{sat_add32, sat_add64, sat_add_u32, sat_add_u64, sat_sub64, sat_sub_u64, state_info_of,
    wf_ledger};
use crate::store::{state_root_of, OffchainState};
use crate::codec::{decode_info, lemma_info_roundtrip, lemma_key_shapes, make_state_info_key};
use crate::ledger::{ledger_balance, lmp_value};
use crate::laws::replay_batches;
use crate::sync::{apply_batch_spec, pairs_wf, process_batch};
use crate::types::{
    AssetId, CycleOutcome, IngressMessage, LmpEpochConfig, ReplayError, SnapshotSummary, StateInfo,
    TradingPair, TradingPairConfig, UserActionBatch, Withdrawal,
};

verus! {

/// The hard-coded first block of the exchange's history: a cold start that
/// has imported nothing yet syncs deposits from here.
pub const GENESIS_SYNC_BLOCK: u64 = 4768083;

/// The batch the aggregator serves for a sequence number: the first batch
/// whose own number matches.
pub open spec fn find_batch_spec(batches: Seq<UserActionBatch>, nonce: u64) -> Option<
    UserActionBatch,
>
    decreases batches.len(),
{
    if batches.len() == 0 {
        None
    } else if batches[0].snapshot_id == nonce {
        Some(batches[0])
    } else {
        find_batch_spec(batches.skip(1), nonce)
    }
}

/// The retained summary for a snapshot number: the latest one stored.
pub open spec fn lookup_summary(s: Seq<(u64, SnapshotSummary)>, nonce: u64) -> Option<
    SnapshotSummary,
>
    decreases s.len(),
{
    if s.len() == 0 {
        None
    } else if s.last().0 == nonce {
        Some(s.last().1)
    } else {
        lookup_summary(s.drop_last(), nonce)
    }
}

/// Whether `k` is a key the node holds for an active authority.
pub open spec fn is_common_key(authorities: Seq<u64>, local: Seq<u64>, k: u64) -> bool {
    authorities.contains(k) && local.contains(k)
}

/// The key the engine signs with: the smallest key held both locally and in
/// the active set. Determined whenever any key is held at all.
pub open spec fn min_common_key(authorities: Seq<u64>, local: Seq<u64>) -> u64 {
    choose|k: u64|
        is_common_key(authorities, local, k) && (forall|c: u64|
            is_common_key(authorities, local, c) ==> k <= c)
}

/// Whether the local key store holds a key of an authority.
fn contains_key(v: &Vec<u64>, x: u64) -> (r: bool)
    ensures
        r == v@.contains(x),
{
    let n = v.len();
    let mut i: usize = 0;
    while i < n
        invariant
            i <= n,
            n == v@.len(),
            forall|j: int| 0 <= j < i ==> v@[j] != x,
        decreases n - i,
    {
        if v[i] == x {
            return true;
        }
        i = i + 1;
    }
    false
}

/// The first available authority key: the smallest key held both locally and
/// in the active set, as sorting the available keys and taking the head does.
fn first_available_key(authorities: &Vec<u64>, local_keys: &Vec<u64>) -> (r: Option<u64>)
    ensures
        match r {
            Some(k) => is_common_key(authorities@, local_keys@, k) && forall|c: u64|
                is_common_key(authorities@, local_keys@, c) ==> k <= c,
            None => forall|c: u64| !is_common_key(authorities@, local_keys@, c),
        },
{
    let n = authorities.len();
    let mut best: Option<u64> = None;
    let mut i: usize = 0;
    while i < n
        invariant
            i <= n,
            n == authorities@.len(),
            match best {
                Some(b) => is_common_key(authorities@, local_keys@, b) && forall|j: int|
                    0 <= j < i && local_keys@.contains(#[trigger] authorities@[j]) ==> b
                        <= authorities@[j],
                None => forall|j: int|
                    0 <= j < i ==> !local_keys@.contains(#[trigger] authorities@[j]),
            },
        decreases n - i,
    {
        let a = authorities[i];
        if contains_key(local_keys, a) {
            proof {
                assert(authorities@.contains(a)) by {
                    assert(authorities@[i as int] == a);
                }
            }
            match best {
                None => {
                    best = Some(a);
                },
                Some(b) => {
                    if a < b {
                        best = Some(a);
                    }
                },
            }
        }
        i = i + 1;
    }
    proof {
        match best {
            Some(b) => {
                assert forall|c: u64| is_common_key(authorities@, local_keys@, c) implies b <= c by {
                    let j = choose|j: int|
                        0 <= j < authorities@.len() && authorities@[j] == c;
                    assert(local_keys@.contains(authorities@[j]));
                }
            },
            None => {
                assert forall|c: u64| !is_common_key(authorities@, local_keys@, c) by {
                    if authorities@.contains(c) {
                        let j = choose|j: int|
                            0 <= j < authorities@.len() && authorities@[j] == c;
                        assert(!local_keys@.contains(authorities@[j]));
                    }
                }
            },
        }
    }
    best
}

/// Copies a withdrawal list.
fn clone_withdrawals(v: &Vec<Withdrawal>) -> (r: Vec<Withdrawal>)
    ensures
        r@ == v@,
{
    let mut r: Vec<Withdrawal> = Vec::new();
    let mut i: usize = 0;
    while i < v.len()
        invariant
            i <= v@.len(),
            r@ == v@.take(i as int),
        decreases v@.len() - i,
    {
        r.push(v[i]);
        proof {
            assert(v@.take(i + 1) =~= v@.take(i as int).push(v@[i as int]));
        }
        i = i + 1;
    }
    proof {
        assert(v@.take(v@.len() as int) =~= v@);
    }
    r
}

/// Copies a summary, field for field.
fn clone_summary(s: &SnapshotSummary) -> (r: SnapshotSummary)
    ensures
        r.validator_set_id == s.validator_set_id,
        r.snapshot_id == s.snapshot_id,
        r.state_hash == s.state_hash,
        r.state_change_id == s.state_change_id,
        r.last_processed_blk == s.last_processed_blk,
        r.withdrawals@ == s.withdrawals@,
{
    SnapshotSummary {
        validator_set_id: s.validator_set_id,
        snapshot_id: s.snapshot_id,
        state_hash: s.state_hash,
        state_change_id: s.state_change_id,
        last_processed_blk: s.last_processed_blk,
        withdrawals: clone_withdrawals(&s.withdrawals),
    }
}

/// Looks up the batch numbered `nonce` among those the aggregator serves.
fn find_batch<'a>(batches: &'a Vec<UserActionBatch>, nonce: u64) -> (r: Option<
    &'a UserActionBatch,
>)
    ensures
        match r {
            Some(b) => find_batch_spec(batches@, nonce) == Some(*b),
            None => find_batch_spec(batches@, nonce) is None,
        },
{
    let n = batches.len();
    let mut i: usize = 0;
    proof {
        assert(batches@.skip(0) =~= batches@);
    }
    while i < n
        invariant
            i <= n,
            n == batches@.len(),
            find_batch_spec(batches@, nonce) == find_batch_spec(batches@.skip(i as int), nonce),
        decreases n - i,
    {
        proof {
            assert(batches@.skip(i as int)[0] == batches@[i as int]);
            assert(batches@.skip(i as int).skip(1) =~= batches@.skip(i + 1));
        }
        if batches[i].snapshot_id == nonce {
            return Some(&batches[i]);
        }
        i = i + 1;
    }
    proof {
        assert(batches@.skip(n as int) =~= Seq::<UserActionBatch>::empty());
    }
    None
}

/// The aggregator serves `bs` as the batches for the nonce range starting
/// at `from`.
pub open spec fn serves_range(
    batches: Seq<UserActionBatch>,
    from: u64,
    bs: Seq<UserActionBatch>,
) -> bool {
    forall|i: int|
        0 <= i < bs.len() ==> find_batch_spec(batches, (from + i) as u64) == Some(#[trigger] bs[i])
}

/// The contents a whole catch-up replay of `bs` followed by the current
/// batch `b` leaves behind: the replay fold, the batch applied on its
/// result, and the cursor stamped and persisted.
pub open spec fn catch_up_then_apply(
    m0: Map<Seq<u8>, Seq<u8>>,
    info0: StateInfo,
    bs: Seq<UserActionBatch>,
    b: UserActionBatch,
    pairs: Seq<(TradingPair, TradingPairConfig)>,
    ingress: Seq<(u64, Vec<IngressMessage>)>,
    epoch: u32,
    mf: Map<Seq<u8>, Seq<u8>>,
) -> bool {
    match replay_batches(m0, info0, bs, pairs, ingress, epoch) {
        Ok((mc, ic)) => match apply_batch_spec(mc, ic, b, pairs, ingress, epoch) {
            Ok((m2, i2, _ws)) => mf == m2.insert(
                state_info_key(),
                info_enc(StateInfo { stid: b.stid, snapshot_id: b.snapshot_id, ..i2 }),
            ),
            Err(_) => false,
        },
        Err(_) => false,
    }
}

/// Two summaries with the same content.
pub open spec fn summary_eq(a: SnapshotSummary, b: SnapshotSummary) -> bool {
    &&& a.validator_set_id == b.validator_set_id
    &&& a.snapshot_id == b.snapshot_id
    &&& a.state_hash == b.state_hash
    &&& a.state_change_id == b.state_change_id
    &&& a.last_processed_blk == b.last_processed_blk
    &&& a.withdrawals@ == b.withdrawals@
}

/// Whether the node can take part in a cycle at all: a validator without a
/// key of the active set cannot.
pub open spec fn no_local_key(authorities: Seq<u64>, local: Seq<u64>) -> bool {
    forall|c: u64| !is_common_key(authorities, local, c)
}

/// The node-local replay state.
pub struct Pallet {
    /// The trie-like ledger store.
    pub state: OffchainState,
    /// The persisted root pointer; all zeroes before the first commit.
    pub trie_root: [u8; 32],
    /// The persistent single-worker guard: set when a cycle starts, so that
    /// a concurrent worker instance exits without mutating anything.
    pub worker_status: bool,
    /// The last snapshot number the chain has anchored.
    pub snapshot_nonce: u64,
    /// The id of the active validator set.
    pub validator_set_id: u64,
    /// The active authorities, in set order.
    pub authorities: Vec<u64>,
    /// The allow-listed markets.
    pub trading_pairs: Vec<(TradingPair, TradingPairConfig)>,
    /// The current liquidity-mining epoch.
    pub lmp_epoch: u32,
    /// The epoch whose scores are to be finalized, once one is pending.
    pub finalize_lmp_score: Option<u32>,
    /// The configuration the next epoch will start with.
    pub expected_lmp_config: LmpEpochConfig,
    /// Per-epoch configurations, appended at each epoch start.
    pub lmp_configs: Vec<(u32, LmpEpochConfig)>,
    /// Retained summaries, one per processed snapshot number, for
    /// resubmission.
    pub snapshots: Vec<(u64, SnapshotSummary)>,
}

impl Pallet {
    /// Well-formedness: the store is sorted and its contents decode, and the
    /// market allow-list is consistent.
    pub open spec fn wf(self) -> bool {
        &&& self.state.wf()
        &&& wf_ledger(self.state.view_map())
        &&& wf_ledger(self.state.committed_map())
        &&& pairs_wf(self.trading_pairs@)
    }

    /// A fresh engine with an empty ledger.
    pub fn new(snapshot_nonce: u64, validator_set_id: u64, authorities: Vec<u64>) -> (r: Pallet)
        ensures
            r.wf(),
            r.state.view_map() == Map::<Seq<u8>, Seq<u8>>::empty(),
            r.state.overlay@.len() == 0,
            !r.worker_status,
            r.snapshot_nonce == snapshot_nonce,
            r.validator_set_id == validator_set_id,
            r.authorities == authorities,
            r.trading_pairs@.len() == 0,
            r.lmp_epoch == 0,
            r.finalize_lmp_score is None,
            r.snapshots@.len() == 0,
    {
        let r = Pallet {
            state: OffchainState::new(),
            trie_root: [0u8; 32],
            worker_status: false,
            snapshot_nonce,
            validator_set_id,
            authorities,
            trading_pairs: Vec::new(),
            lmp_epoch: 0,
            finalize_lmp_score: None,
            expected_lmp_config: LmpEpochConfig {
                total_liquidity_mining_rewards: 0,
                total_trading_rewards: 0,
            },
            lmp_configs: Vec::new(),
            snapshots: Vec::new(),
        };
        r
    }

    /// Allow-lists a market. Rejected unless the configuration names the
    /// market's own, distinct assets.
    pub fn register_trading_pair(&mut self, pair: TradingPair, config: TradingPairConfig) -> (r:
        bool)
        requires
            old(self).wf(),
        ensures
            final(self).wf(),
            r == (config.base_asset == pair.base && config.quote_asset == pair.quote && pair.base
                != pair.quote),
            r ==> final(self).trading_pairs@ == old(self).trading_pairs@.push((pair, config)),
            !r ==> *final(self) == *old(self),
            final(self).state == old(self).state,
            final(self).snapshots == old(self).snapshots,
    {
        if config.base_asset == pair.base && config.quote_asset == pair.quote && pair.base
            != pair.quote {
            let ghost before = self.trading_pairs@;
            self.trading_pairs.push((pair, config));
            proof {
                assert forall|i: int| 0 <= i < self.trading_pairs@.len() implies (
                #[trigger] self.trading_pairs@[i].1).base_asset == self.trading_pairs@[i].0.base
                    && self.trading_pairs@[i].1.quote_asset == self.trading_pairs@[i].0.quote
                    && self.trading_pairs@[i].0.base != self.trading_pairs@[i].0.quote by {
                    if i < before.len() {
                        assert(self.trading_pairs@[i] == before[i]);
                    }
                }
            }
            true
        } else {
            false
        }
    }

    /// Loads the replay cursor from the store; a missing or undecodable entry
    /// reads as the default cursor, a recoverable reset.
    pub fn load_state_info(state: &OffchainState) -> (r: StateInfo)
        ensures
            r == state_info_of(state.view_map()),
    {
        let key = make_state_info_key();
        match state.get(&key) {
            Some(bytes) => match crate::codec::decode_info(bytes) {
                Some(i) => i,
                None => StateInfo::new_default(),
            },
            None => StateInfo::new_default(),
        }
    }

    /// Persists the replay cursor into the store, leaving balances and
    /// accumulators untouched.
    pub fn store_state_info(state_info: StateInfo, state: &mut OffchainState)
        requires
            wf_ledger(old(state).view_map()),
        ensures
            final(state).view_map() == old(state).view_map().insert(
                state_info_key(),
                info_enc(state_info),
            ),
            wf_ledger(final(state).view_map()),
            state_info_of(final(state).view_map()) == state_info,
            forall|who: u64, asset: AssetId|
                #[trigger] ledger_balance(final(state).view_map(), who, asset) == ledger_balance(
                    old(state).view_map(),
                    who,
                    asset,
                ),
            forall|k: Seq<u8>|
                crate::codec::is_lmp_key(k) ==> #[trigger] lmp_value(final(state).view_map(), k)
                    == lmp_value(old(state).view_map(), k),
            final(state).committed == old(state).committed,
            final(state).wf() == old(state).wf(),
    {
        let ghost m = state.view_map();
        let key = make_state_info_key();
        let bytes = crate::codec::encode_info(&state_info);
        state.insert(key, bytes);
        proof {
            let m2 = state.view_map();
            lemma_info_roundtrip(state_info);
            lemma_key_shapes(0, 0, AssetId::Polkadex, AssetId::Polkadex, 0, 0);
            assert(wf_ledger(m2)) by {
                assert forall|k: Seq<u8>| #[trigger] m2.contains_key(k) implies (
                crate::codec::is_acct_key(k) ==> crate::codec::table_dec(m2[k]).is_some() && m2[k].len()
                    <= usize::MAX) && (crate::codec::is_lmp_key(k) ==> m2[k].len() == 16) by {
                    if k != state_info_key() {
                        assert(m.contains_key(k));
                    } else {
                        lemma_key_shapes(0, 0, AssetId::Polkadex, AssetId::Polkadex, 0, 0);
                    }
                }
            }
            assert forall|who: u64, asset: AssetId| #[trigger] ledger_balance(m2, who, asset)
                == ledger_balance(m, who, asset) by {
                lemma_key_shapes(who, 0, AssetId::Polkadex, AssetId::Polkadex, 0, 0);
                assert(crate::codec::acct_key(who) != state_info_key());
            }
        }
    }

    /// The position of the expected signer in the active authority set: the
    /// first index holding it, or `None` when it is absent.
    pub fn calculate_signer_index(authorities: &Vec<u64>, expected_signer: u64) -> (r: Option<usize>)
        ensures
            match r {
                Some(i) => i < authorities@.len() && authorities@[i as int] == expected_signer
                    && forall|j: int| 0 <= j < i ==> authorities@[j] != expected_signer,
                None => forall|j: int| 0 <= j < authorities@.len() ==> authorities@[j] != expected_signer,
            },
    {
        let n = authorities.len();
        let mut i: usize = 0;
        while i < n
            invariant
                i <= n,
                n == authorities@.len(),
                forall|j: int| 0 <= j < i ==> authorities@[j] != expected_signer,
            decreases n - i,
        {
            if authorities[i] == expected_signer {
                return Some(i);
            }
            i = i + 1;
        }
        None
    }

    /// Takes the single-worker guard: reports whether this worker may run,
    /// and leaves the guard set either way.
    pub fn check_worker_status(&mut self) -> (r: Result<bool, ReplayError>)
        ensures
            r == Ok::<bool, ReplayError>(!old(self).worker_status),
            final(self).worker_status,
            *final(self) == (Pallet { worker_status: true, ..*old(self) }),
    {
        if self.worker_status {
            self.worker_status = true;
            return Ok(false);
        }
        self.worker_status = true;
        Ok(true)
    }

    /// Reads the replay cursor out of the committed store, as a fresh load
    /// from the persisted root sees it.
    pub fn get_state_info(&self) -> (r: StateInfo)
        ensures
            r == state_info_of(self.state.committed_map()),
    {
        let key = crate::codec::make_state_info_key();
        match self.state.committed_get(&key) {
            Some(bytes) => match crate::codec::decode_info(bytes) {
                Some(i) => i,
                None => StateInfo::new_default(),
            },
            None => StateInfo::new_default(),
        }
    }

    /// Reads an account's committed balance table, as the recovery queries
    /// serve it.
    pub fn get_offchain_balance(&self, account: u64) -> (r: Vec<(AssetId, u128)>)
        requires
            wf_ledger(self.state.committed_map()),
        ensures
            r@ == crate::ledger::stored_table(self.state.committed_map(), account),
    {
        let key = crate::codec::make_acct_key(account);
        proof {
            crate::codec::lemma_key_shapes(account, 0, AssetId::Polkadex, AssetId::Polkadex, 0, 0);
        }
        match self.state.committed_get(&key) {
            None => {
                let t: Vec<(AssetId, u128)> = Vec::new();
                proof {
                    assert(t@ =~= crate::ledger::stored_table(
                        self.state.committed_map(),
                        account,
                    ));
                }
                t
            },
            Some(bytes) => {
                match crate::codec::decode_table(bytes) {
                    Some(t) => t,
                    None => {
                        // Unreachable on a well-formed ledger.
                        Vec::new()
                    },
                }
            },
        }
    }

    /// Retains a built summary under its snapshot number for resubmission.
    pub fn store_summary(&mut self, nonce: u64, summary: SnapshotSummary)
        ensures
            final(self).snapshots@ == old(self).snapshots@.push((nonce, summary)),
            *final(self) == (Pallet { snapshots: final(self).snapshots, ..*old(self) }),
    {
        self.snapshots.push((nonce, summary));
    }

    /// Whether a scheduling tick at block `n` starts a new liquidity-mining
    /// epoch: once every 201600 blocks, about 28 days.
    pub fn should_start_new_epoch(n: u32) -> (r: bool)
        ensures
            r == (n % 201600 == 0),
    {
        n % 201600u32 == 0
    }

    /// Starts a new liquidity-mining epoch: marks the finished epoch for
    /// score finalization if none is pending, advances the epoch counter,
    /// and copies the expected configuration in for the new epoch. Returns
    /// the new epoch number for the crowd-sourcing collaborator to be told.
    pub fn start_new_epoch(&mut self) -> (notify: u32)
        ensures
            final(self).lmp_epoch == sat_add32(old(self).lmp_epoch, 1),
            final(self).finalize_lmp_score == if old(self).finalize_lmp_score is None {
                Some(old(self).lmp_epoch)
            } else {
                old(self).finalize_lmp_score
            },
            final(self).lmp_configs@ == old(self).lmp_configs@.push(
                (final(self).lmp_epoch, old(self).expected_lmp_config),
            ),
            notify == final(self).lmp_epoch,
            *final(self) == (Pallet {
                lmp_epoch: final(self).lmp_epoch,
                finalize_lmp_score: final(self).finalize_lmp_score,
                lmp_configs: final(self).lmp_configs,
                ..*old(self)
            }),
    {
        if self.finalize_lmp_score.is_none() {
            self.finalize_lmp_score = Some(self.lmp_epoch);
        }
        let current_epoch = sat_add_u32(self.lmp_epoch, 1);
        self.lmp_epoch = current_epoch;
        self.lmp_configs.push((current_epoch, self.expected_lmp_config));
        current_epoch
    }

    /// Whether a scheduling tick at block `n` stops accepting
    /// liquidity-mining withdrawals: 7200 blocks, about one day, before each
    /// epoch change.
    pub fn should_stop_accepting_lmp_withdrawals(n: u32) -> (r: bool)
        ensures
            r == (sat_add32(n, 7200) % 201600 == 0),
    {
        sat_add_u32(n, 7200) % 201600u32 == 0
    }

    /// The epoch for which the crowd-sourcing collaborator is to stop
    /// accepting withdrawals.
    pub fn stop_accepting_lmp_withdrawals(&self) -> (epoch: u32)
        ensures
            epoch == self.lmp_epoch,
    {
        self.lmp_epoch
    }

    /// The index under which this node signs: the first position in the
    /// active set of the selected key, the smallest authority key held
    /// locally. `None` when the node holds no key of the active set.
    pub fn signer_index(&self, local_keys: &Vec<u64>) -> (r: Option<usize>)
        ensures
            match r {
                Some(i) => ({
                    let k = min_common_key(self.authorities@, local_keys@);
                    &&& is_common_key(self.authorities@, local_keys@, k)
                    &&& i < self.authorities@.len()
                    &&& self.authorities@[i as int] == k
                    &&& forall|j: int| 0 <= j < i ==> self.authorities@[j] != k
                }),
                None => no_local_key(self.authorities@, local_keys@),
            },
    {
        let key = match first_available_key(&self.authorities, local_keys) {
            Some(k) => k,
            None => {
                return None;
            },
        };
        proof {
            let a = self.authorities@;
            let l = local_keys@;
            assert(exists|k2: u64|
                is_common_key(a, l, k2) && (forall|c: u64|
                    is_common_key(a, l, c) ==> k2 <= c)) by {
                assert(is_common_key(a, l, key) && (forall|c: u64|
                    is_common_key(a, l, c) ==> key <= c));
            }
            let k0 = min_common_key(a, l);
            assert(is_common_key(a, l, k0) && (forall|c: u64|
                is_common_key(a, l, c) ==> k0 <= c));
            assert(k0 == key);
        }
        match Pallet::calculate_signer_index(&self.authorities, key) {
            Some(i) => Some(i),
            None => {
                proof {
                    // The selected key is a member of the active set.
                    let j = choose|j: int|
                        0 <= j < self.authorities@.len() && self.authorities@[j] == key;
                    assert(false);
                }
                None
            },
        }
    }

    /// Hands back the retained summary for a snapshot number, newest first.
    pub fn load_signed_summary(&self, nonce: u64) -> (r: Option<SnapshotSummary>)
        ensures
            match r {
                Some(s) => lookup_summary(self.snapshots@, nonce) is Some && ({
                    let f = lookup_summary(self.snapshots@, nonce).unwrap();
                    s.validator_set_id == f.validator_set_id && s.snapshot_id == f.snapshot_id
                        && s.state_hash == f.state_hash && s.state_change_id == f.state_change_id
                        && s.last_processed_blk == f.last_processed_blk && s.withdrawals@
                        == f.withdrawals@
                }),
                None => lookup_summary(self.snapshots@, nonce) is None,
            },
    {
        let mut i: usize = self.snapshots.len();
        proof {
            assert(self.snapshots@.take(i as int) =~= self.snapshots@);
        }
        while i > 0
            invariant
                i <= self.snapshots@.len(),
                lookup_summary(self.snapshots@, nonce) == lookup_summary(
                    self.snapshots@.take(i as int),
                    nonce,
                ),
            decreases i,
        {
            i = i - 1;
            proof {
                let pre = self.snapshots@.take(i + 1);
                assert(pre.last() == self.snapshots@[i as int]);
                assert(pre.drop_last() =~= self.snapshots@.take(i as int));
            }
            if self.snapshots[i].0 == nonce {
                return Some(clone_summary(&self.snapshots[i].1));
            }
        }
        proof {
            assert(self.snapshots@.take(0) =~= Seq::<(u64, SnapshotSummary)>::empty());
        }
        None
    }

    /// Runs one replay cycle: computes the next batch of user actions to
    /// apply, catches up any gap batch by batch, applies the current batch,
    /// commits the store, and — when the node holds an active validator key —
    /// builds the snapshot summary for the caller to sign and submit.
    ///
    /// Replaying an already-processed nonce resubmits the retained summary
    /// without mutating anything: resubmission is idempotent. Any batch error
    /// aborts the cycle with the pending writes discarded, so previously
    /// committed state stays intact.
    ///
    /// A validator node that holds no key of the active set errors out with
    /// `NoActiveKeys` before taking the guard and before the resubmission
    /// short-circuit: such a node never replays and never resends. That
    /// ordering is deliberate — a keyless validator cannot sign what the
    /// cycle would produce, so it does no work at all.
    pub fn run_on_chain_validation(
        &mut self,
        local_keys: &Vec<u64>,
        is_validator: bool,
        batches: &Vec<UserActionBatch>,
        ingress: &Vec<(u64, Vec<IngressMessage>)>,
    ) -> (r: Result<CycleOutcome, ReplayError>)
        requires
            old(self).wf(),
            old(self).state.overlay@.len() == 0,
        ensures
            final(self).wf(),
            final(self).state.overlay@.len() == 0,
            final(self).snapshot_nonce == old(self).snapshot_nonce,
            final(self).validator_set_id == old(self).validator_set_id,
            final(self).authorities == old(self).authorities,
            final(self).trading_pairs == old(self).trading_pairs,
            final(self).lmp_epoch == old(self).lmp_epoch,
            final(self).finalize_lmp_score == old(self).finalize_lmp_score,
            final(self).expected_lmp_config == old(self).expected_lmp_config,
            final(self).lmp_configs == old(self).lmp_configs,
            // A validator with no active key cannot run at all.
            (is_validator && no_local_key(old(self).authorities@, local_keys@)) ==> r
                == Err::<CycleOutcome, ReplayError>(ReplayError::NoActiveKeys) && *final(self)
                == *old(self),
            // A set guard means a silent no-op: another worker is replaying.
            (!(is_validator && no_local_key(old(self).authorities@, local_keys@)) && old(self).worker_status) ==> r == Ok::<CycleOutcome, ReplayError>(
                CycleOutcome::AnotherWorkerBusy,
            ) && *final(self) == *old(self),
            // Idempotent resubmission: an already-processed nonce hands back
            // the retained summary and mutates nothing.
            ({
                let next = sat_add64(old(self).snapshot_nonce, 1);
                let info0 = state_info_of(old(self).state.view_map());
                (!(is_validator && no_local_key(old(self).authorities@, local_keys@)) && !old(self).worker_status && info0.snapshot_id == next) ==> *final(self) == (Pallet {
                    worker_status: true,
                    ..*old(self)
                }) && (match r {
                    Ok(CycleOutcome::Resubmitted(opt)) => match (
                        opt,
                        lookup_summary(old(self).snapshots@, next),
                    ) {
                        (Some(s), Some(f)) => summary_eq(s, f),
                        (None, None) => true,
                        _ => false,
                    },
                    _ => false,
                })
            }),
            // The gap-free replay path, exactly.
            ({
                let next = sat_add64(old(self).snapshot_nonce, 1);
                let info0 = state_info_of(old(self).state.view_map());
                (!(is_validator && no_local_key(old(self).authorities@, local_keys@)) && !old(self).worker_status && info0.snapshot_id != next && sat_sub64(next, info0.snapshot_id)
                    < 2) ==> match find_batch_spec(batches@, next) {
                    None => ({
                        let info_c = StateInfo { snapshot_id: sat_sub64(next, 1), ..info0 };
                        let m_c = old(self).state.view_map().insert(
                            state_info_key(),
                            info_enc(info_c),
                        );
                        r == Ok::<CycleOutcome, ReplayError>(CycleOutcome::CaughtUp) && final(self).state.view_map() == m_c && final(self).state.committed_map() == m_c
                            && final(self).trie_root@ == state_root_of(m_c) && final(self).snapshots
                            == old(self).snapshots
                    }),
                    Some(b) => match apply_batch_spec(
                        old(self).state.view_map(),
                        info0,
                        b,
                        old(self).trading_pairs@,
                        ingress@,
                        old(self).lmp_epoch,
                    ) {
                        Err(e) => r == Err::<CycleOutcome, ReplayError>(e) && final(self).state.committed == old(self).state.committed && final(self).state.view_map() == old(self).state.committed_map() && final(self).trie_root == old(self).trie_root && final(self).snapshots == old(self).snapshots,
                        Ok((m2, i2, ws)) => ({
                            let info_f = StateInfo {
                                stid: b.stid,
                                snapshot_id: b.snapshot_id,
                                ..i2
                            };
                            let m_f = m2.insert(state_info_key(), info_enc(info_f));
                            &&& final(self).state.view_map() == m_f
                            &&& final(self).state.committed_map() == m_f
                            &&& final(self).trie_root@ == state_root_of(m_f)
                            &&& state_info_of(m_f) == info_f
                            &&& (is_validator ==> match r {
                                Ok(CycleOutcome::Applied(s, _idx)) => s.validator_set_id == old(self).validator_set_id && s.snapshot_id == next && s.state_hash@
                                    == state_root_of(m_f) && s.state_change_id == b.stid
                                    && s.last_processed_blk == i2.last_block && s.withdrawals@ == ws
                                    && final(self).snapshots@.len() == old(self).snapshots@.len()
                                    + 1 && final(self).snapshots@.last().0 == next && summary_eq(
                                    final(self).snapshots@.last().1,
                                    s,
                                ),
                                _ => false,
                            })
                            &&& (!is_validator ==> r == Ok::<CycleOutcome, ReplayError>(
                                CycleOutcome::AppliedNotValidator,
                            ) && final(self).snapshots == old(self).snapshots)
                        }),
                    },
                }
            }),
            // The catch-up path: with a gap of two or more, a cycle that
            // applied its batch is exactly the replay fold of the served gap
            // batches followed by the current batch, and the stored root is
            // the final contents' root.
            ({
                let next = sat_add64(old(self).snapshot_nonce, 1);
                let info0 = state_info_of(old(self).state.view_map());
                let info0g = if info0.last_block == 0 {
                    StateInfo { last_block: GENESIS_SYNC_BLOCK, ..info0 }
                } else {
                    info0
                };
                let from = sat_add64(info0.snapshot_id, 1);
                (!(is_validator && no_local_key(old(self).authorities@, local_keys@)) && !old(self).worker_status && info0.snapshot_id != next && sat_sub64(next, info0.snapshot_id)
                    >= 2 && ((r == Ok::<CycleOutcome, ReplayError>(
                    CycleOutcome::AppliedNotValidator,
                )) || (r matches Ok(CycleOutcome::Applied(_, _))))) ==> (match find_batch_spec(
                    batches@,
                    next,
                ) {
                    Some(b) => exists|bs: Seq<UserActionBatch>|
                        #[trigger] serves_range(batches@, from, bs) && bs.len() == sat_sub64(
                            next,
                            from,
                        ) && catch_up_then_apply(
                            old(self).state.view_map(),
                            info0g,
                            bs,
                            b,
                            old(self).trading_pairs@,
                            ingress@,
                            old(self).lmp_epoch,
                            final(self).state.view_map(),
                        ),
                    None => false,
                }) && final(self).state.committed_map() == final(self).state.view_map() && final(self).trie_root@ == state_root_of(final(self).state.view_map())
            }),
            // The catch-up path when the cycle stops early: an error or a
            // missing batch leaves exactly the committed replay of the
            // successfully applied prefix of served batches. Prior commits
            // remain; the failing or missing part persists nothing.
            ({
                let next = sat_add64(old(self).snapshot_nonce, 1);
                let info0 = state_info_of(old(self).state.view_map());
                let info0g = if info0.last_block == 0 {
                    StateInfo { last_block: GENESIS_SYNC_BLOCK, ..info0 }
                } else {
                    info0
                };
                let from = sat_add64(info0.snapshot_id, 1);
                (!(is_validator && no_local_key(old(self).authorities@, local_keys@)) && !old(
                    self,
                ).worker_status && info0.snapshot_id != next && sat_sub64(next, info0.snapshot_id)
                    >= 2 && ((r is Err) || r == Ok::<CycleOutcome, ReplayError>(
                    CycleOutcome::CaughtUp,
                ))) ==> final(self).snapshots == old(self).snapshots && (exists|
                    bs: Seq<UserActionBatch>,
                |
                    #[trigger] serves_range(batches@, from, bs) && bs.len() <= sat_sub64(
                        next,
                        from,
                    ) && (match replay_batches(
                        old(self).state.view_map(),
                        info0g,
                        bs,
                        old(self).trading_pairs@,
                        ingress@,
                        old(self).lmp_epoch,
                    ) {
                        Ok((mc, ic)) => ({
                            &&& (bs.len() == 0 ==> final(self).trie_root == old(self).trie_root)
                            &&& if r is Err {
                                &&& final(self).state.view_map() == mc
                                &&& final(self).state.committed_map() == mc
                                &&& (bs.len() > 0 ==> final(self).trie_root@ == state_root_of(mc))
                            } else if bs.len() < sat_sub64(next, from) {
                                // a gap batch was missing: the prefix stays
                                // committed, nothing else moved
                                &&& find_batch_spec(batches@, (from + bs.len()) as u64) is None
                                &&& final(self).state.view_map() == mc
                                &&& final(self).state.committed_map() == mc
                                &&& (bs.len() > 0 ==> final(self).trie_root@ == state_root_of(mc))
                            } else {
                                // the whole gap was replayed and the current
                                // batch was missing: the cursor records the
                                // catch-up and commits
                                let info_c = StateInfo { snapshot_id: sat_sub64(next, 1), ..ic };
                                let m_c = mc.insert(state_info_key(), info_enc(info_c));
                                &&& find_batch_spec(batches@, next) is None
                                &&& final(self).state.view_map() == m_c
                                &&& final(self).state.committed_map() == m_c
                                &&& final(self).trie_root@ == state_root_of(m_c)
                            }
                        }),
                        Err(_) => false,
                    }))
            }),
            // Whatever path applied a batch, the returned signer index names
            // the selected key's first position in the active set, and the
            // summary commits to the stored root at the requested nonce.
            (match r {
                Ok(CycleOutcome::Applied(s, idx)) => ({
                    let k = min_common_key(old(self).authorities@, local_keys@);
                    &&& idx < old(self).authorities@.len()
                    &&& old(self).authorities@[idx as int] == k
                    &&& (forall|j: int| 0 <= j < idx ==> old(self).authorities@[j] != k)
                    &&& s.state_hash == final(self).trie_root
                    &&& s.snapshot_id == sat_add64(old(self).snapshot_nonce, 1)
                }),
                _ => true,
            }),
    {
        let key_opt = first_available_key(&self.authorities, local_keys);
        if is_validator && key_opt.is_none() {
            return Err(ReplayError::NoActiveKeys);
        }
        let lock = self.check_worker_status();
        match lock {
            Ok(true) => {},
            Ok(false) => {
                return Ok(CycleOutcome::AnotherWorkerBusy);
            },
            Err(e) => {
                return Err(e);
            },
        }
        let next_nonce = sat_add_u64(self.snapshot_nonce, 1);
        let mut state_info = Pallet::load_state_info(&self.state);
        let last_processed_nonce = state_info.snapshot_id;
        // Already processed and committed: resubmit the retained summary.
        if last_processed_nonce == next_nonce {
            let s = self.load_signed_summary(next_nonce);
            return Ok(CycleOutcome::Resubmitted(s));
        }
        let ghost mut done: Seq<UserActionBatch> = Seq::empty();
        let ghost mut info0g = state_info;
        if sat_sub_u64(next_nonce, last_processed_nonce) >= 2 {
            // Catch up sequentially, committing after each batch.
            if state_info.last_block == 0 {
                state_info.last_block = GENESIS_SYNC_BLOCK;
            }
            proof {
                info0g = state_info;
                assert(crate::codec::kvs_view(self.state.overlay@) =~= Seq::<(
                    Seq<u8>,
                    Seq<u8>,
                )>::empty());
                assert(self.state.committed_map() == self.state.view_map());
            }
            let mut nonce = sat_add_u64(last_processed_nonce, 1);
            while nonce < next_nonce
                invariant
                    self.wf(),
                    self.snapshot_nonce == old(self).snapshot_nonce,
                    self.validator_set_id == old(self).validator_set_id,
                    self.authorities == old(self).authorities,
                    self.trading_pairs == old(self).trading_pairs,
                    self.lmp_epoch == old(self).lmp_epoch,
                    self.finalize_lmp_score == old(self).finalize_lmp_score,
                    self.expected_lmp_config == old(self).expected_lmp_config,
                    self.lmp_configs == old(self).lmp_configs,
                    self.snapshots == old(self).snapshots,
                    self.worker_status,
                    !(is_validator && no_local_key(old(self).authorities@, local_keys@)),
                    !old(self).worker_status,
                    next_nonce == sat_add64(old(self).snapshot_nonce, 1),
                    state_info_of(old(self).state.view_map()).snapshot_id != next_nonce,
                    sat_sub64(
                        next_nonce,
                        state_info_of(old(self).state.view_map()).snapshot_id,
                    ) >= 2,
                    last_processed_nonce == state_info_of(old(self).state.view_map()).snapshot_id,
                    info0g == ({
                        let info0 = state_info_of(old(self).state.view_map());
                        if info0.last_block == 0 {
                            StateInfo { last_block: GENESIS_SYNC_BLOCK, ..info0 }
                        } else {
                            info0
                        }
                    }),
                    sat_add64(last_processed_nonce, 1) <= nonce <= next_nonce,
                    done.len() + sat_add64(last_processed_nonce, 1) == nonce,
                    serves_range(batches@, sat_add64(last_processed_nonce, 1), done),
                    self.state.overlay@.len() == 0,
                    self.state.committed_map() == self.state.view_map(),
                    done.len() == 0 ==> self.trie_root == old(self).trie_root,
                    done.len() > 0 ==> self.trie_root@ == state_root_of(self.state.view_map()),
                    replay_batches(
                        old(self).state.view_map(),
                        info0g,
                        done,
                        old(self).trading_pairs@,
                        ingress@,
                        old(self).lmp_epoch,
                    ) == Ok::<(Map<Seq<u8>, Seq<u8>>, StateInfo), ReplayError>(
                        (self.state.view_map(), state_info),
                    ),
                decreases next_nonce - nonce,
            {
                let ghost mc_prev = self.state.view_map();
                let ghost ic_prev = state_info;
                let batch = match find_batch(batches, nonce) {
                    None => {
                        proof {
                            let from = sat_add64(last_processed_nonce, 1);
                            assert((from + done.len()) as u64 == nonce);
                        }
                        return Ok(CycleOutcome::CaughtUp);
                    },
                    Some(b) => b,
                };
                match process_batch(
                    &mut self.state,
                    batch,
                    &mut state_info,
                    &self.trading_pairs,
                    ingress,
                    self.lmp_epoch,
                ) {
                    Ok(_w) => {},
                    Err(e) => {
                        self.state.discard_overlay();
                        proof {
                            assert(self.state.view_map() == mc_prev);
                            assert(self.state.committed_map() == mc_prev);
                        }
                        return Err(e);
                    },
                }
                state_info.stid = batch.stid;
                state_info.snapshot_id = batch.snapshot_id;
                Pallet::store_state_info(state_info, &mut self.state);
                let root = self.state.commit();
                self.trie_root = root;
                proof {
                    let b = *batch;
                    let m0 = old(self).state.view_map();
                    let pairs0 = old(self).trading_pairs@;
                    let epoch0 = old(self).lmp_epoch;
                    assert(done.push(b) =~= done + seq![b]);
                    crate::laws::lemma_replay_split(
                        m0,
                        info0g,
                        done,
                        seq![b],
                        pairs0,
                        ingress@,
                        epoch0,
                    );
                    assert(seq![b][0] == b);
                    assert(seq![b].skip(1) =~= Seq::<UserActionBatch>::empty());
                    // One singleton step of the fold is exactly what this
                    // iteration just did.
                    match apply_batch_spec(mc_prev, ic_prev, b, pairs0, ingress@, epoch0) {
                        Ok((m2, i2, _ws)) => {
                            let i2p = StateInfo {
                                stid: b.stid,
                                snapshot_id: b.snapshot_id,
                                ..i2
                            };
                            let m2p = m2.insert(state_info_key(), info_enc(i2p));
                            assert(i2p == state_info);
                            assert(m2p == self.state.view_map());
                            assert(replay_batches(
                                m2p,
                                i2p,
                                Seq::<UserActionBatch>::empty(),
                                pairs0,
                                ingress@,
                                epoch0,
                            ) == Ok::<(Map<Seq<u8>, Seq<u8>>, StateInfo), ReplayError>(
                                (m2p, i2p),
                            ));
                            assert(replay_batches(mc_prev, ic_prev, seq![b], pairs0, ingress@, epoch0)
                                == Ok::<(Map<Seq<u8>, Seq<u8>>, StateInfo), ReplayError>((m2p, i2p)));
                        },
                        Err(_) => {
                            assert(false);
                        },
                    }
                    let prev = done;
                    done = done.push(b);
                    assert(replay_batches(m0, info0g, done, pairs0, ingress@, epoch0)
                        == Ok::<(Map<Seq<u8>, Seq<u8>>, StateInfo), ReplayError>(
                        (self.state.view_map(), state_info),
                    ));
                    assert forall|i: int| 0 <= i < done.len() implies find_batch_spec(
                        batches@,
                        (sat_add64(last_processed_nonce, 1) + i) as u64,
                    ) == Some(#[trigger] done[i]) by {
                        if i < prev.len() {
                            assert(done[i] == prev[i]);
                        } else {
                            assert(done[i] == b);
                            assert((sat_add64(last_processed_nonce, 1) + i) as u64 == nonce);
                        }
                    }
                }
                nonce = sat_add_u64(nonce, 1);
            }
        }
        let ghost mc = self.state.view_map();
        let ghost ic = state_info;
        // The batch this cycle is for.
        let batch = match find_batch(batches, next_nonce) {
            None => {
                // Nothing new: mark the store caught up and commit.
                let ghost ic0 = state_info;
                state_info.snapshot_id = sat_sub_u64(next_nonce, 1);
                Pallet::store_state_info(state_info, &mut self.state);
                let root = self.state.commit();
                self.trie_root = root;
                proof {
                    if sat_sub64(next_nonce, last_processed_nonce) >= 2 {
                        let from = sat_add64(last_processed_nonce, 1);
                        assert(done.len() == sat_sub64(next_nonce, from));
                        assert(ic0 == ic);
                        assert(self.state.view_map() == mc.insert(
                            state_info_key(),
                            info_enc(StateInfo { snapshot_id: sat_sub64(next_nonce, 1), ..ic }),
                        ));
                    }
                }
                return Ok(CycleOutcome::CaughtUp);
            },
            Some(b) => b,
        };
        let withdrawals = match process_batch(
            &mut self.state,
            batch,
            &mut state_info,
            &self.trading_pairs,
            ingress,
            self.lmp_epoch,
        ) {
            Ok(w) => w,
            Err(e) => {
                self.state.discard_overlay();
                proof {
                    if sat_sub64(next_nonce, last_processed_nonce) >= 2 {
                        let from = sat_add64(last_processed_nonce, 1);
                        assert(done.len() == sat_sub64(next_nonce, from));
                        assert(self.state.view_map() == mc);
                        assert(self.state.committed_map() == mc);
                    }
                }
                return Err(e);
            },
        };
        state_info.stid = batch.stid;
        state_info.snapshot_id = batch.snapshot_id;
        Pallet::store_state_info(state_info, &mut self.state);
        let state_hash = self.state.commit();
        self.trie_root = state_hash;
        proof {
            if sat_sub64(next_nonce, last_processed_nonce) >= 2 {
                let from = sat_add64(last_processed_nonce, 1);
                assert(serves_range(batches@, from, done));
                assert(done.len() == sat_sub64(next_nonce, from));
                assert(catch_up_then_apply(
                    old(self).state.view_map(),
                    info0g,
                    done,
                    *batch,
                    old(self).trading_pairs@,
                    ingress@,
                    old(self).lmp_epoch,
                    self.state.view_map(),
                ));
            }
        }
        if is_validator {
            let key = match key_opt {
                Some(k) => k,
                None => {
                    // Excluded above: a validator without a key never gets
                    // this far.
                    return Err(ReplayError::NoActiveKeys);
                },
            };
            let auth_index = match Pallet::calculate_signer_index(&self.authorities, key) {
                Some(i) => i,
                None => {
                    proof {
                        // The chosen key is a member of the active set.
                        let j = choose|j: int|
                            0 <= j < self.authorities@.len() && self.authorities@[j] == key;
                        assert(false);
                    }
                    return Err(ReplayError::SignerIndexNotFound);
                },
            };
            proof {
                // The selected key is the smallest commonly held one, so it
                // is the key `min_common_key` names.
                let a = self.authorities@;
                let l = local_keys@;
                assert(exists|k2: u64|
                    is_common_key(a, l, k2) && (forall|c: u64|
                        is_common_key(a, l, c) ==> k2 <= c)) by {
                    assert(is_common_key(a, l, key) && (forall|c: u64|
                        is_common_key(a, l, c) ==> key <= c));
                }
                let k0 = min_common_key(a, l);
                assert(is_common_key(a, l, k0) && (forall|c: u64|
                    is_common_key(a, l, c) ==> k0 <= c));
                assert(k0 == key);
            }
            let summary = SnapshotSummary {
                validator_set_id: self.validator_set_id,
                snapshot_id: next_nonce,
                state_hash,
                state_change_id: batch.stid,
                last_processed_blk: state_info.last_block,
                withdrawals,
            };
            let retained = clone_summary(&summary);
            self.store_summary(next_nonce, retained);
            Ok(CycleOutcome::Applied(summary, auth_index as u64))
        } else {
            Ok(CycleOutcome::AppliedNotValidator)
        }
    }
}

} // verus!
