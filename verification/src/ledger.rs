//! The abstract view of the ledger contents: per-account balance tables, the
//! persisted replay cursor, and the volume-accumulator cells, all read out of
//! the raw byte map the store holds.
use vstd::prelude::*;

use crate::codec::{
    acct_key, info_dec, is_acct_key, is_lmp_key, le_bytes, le_val, lemma_acct_key_injective,
    lemma_key_shapes, lemma_le_bytes_len, lemma_pow256_values, lemma_table_roundtrip, pow256,
    state_info_key, table_dec, table_enc,
};
use crate::types::{AssetId, StateInfo};

verus! {

/// Saturating addition: the numeric ceiling is the cap.
pub open spec fn sat_add(a: u128, b: u128) -> u128 {
    if a + b > u128::MAX {
        u128::MAX
    } else {
        (a + b) as u128
    }
}

/// Saturating multiplication.
pub open spec fn sat_mul(a: u128, b: u128) -> u128 {
    if a * b > u128::MAX {
        u128::MAX
    } else {
        (a * b) as u128
    }
}

/// Adds two balances, saturating at the ceiling.
pub fn sat_add_u128(a: u128, b: u128) -> (r: u128)
    ensures
        r == sat_add(a, b),
{
    if a <= u128::MAX - b {
        a + b
    } else {
        u128::MAX
    }
}

/// Multiplies a price by an amount, saturating at the ceiling.
pub fn sat_mul_u128(a: u128, b: u128) -> (r: u128)
    ensures
        r == sat_mul(a, b),
{
    if a == 0 {
        return 0;
    }
    if b <= u128::MAX / a {
        proof {
            assert(a * b <= u128::MAX) by (nonlinear_arith)
                requires
                    a > 0,
                    b <= u128::MAX as int / a as int,
            ;
        }
        a * b
    } else {
        proof {
            assert(a * b > u128::MAX) by (nonlinear_arith)
                requires
                    a > 0,
                    b > u128::MAX as int / a as int,
            ;
        }
        u128::MAX
    }
}

/// Saturating addition on 64-bit counters.
pub open spec fn sat_add64(a: u64, b: u64) -> u64 {
    if a + b > u64::MAX {
        u64::MAX
    } else {
        (a + b) as u64
    }
}

/// Saturating subtraction on 64-bit counters, stopping at zero.
pub open spec fn sat_sub64(a: u64, b: u64) -> u64 {
    if a >= b {
        (a - b) as u64
    } else {
        0
    }
}

/// Saturating addition on 32-bit counters.
pub open spec fn sat_add32(a: u32, b: u32) -> u32 {
    if a + b > u32::MAX {
        u32::MAX
    } else {
        (a + b) as u32
    }
}

pub fn sat_add_u64(a: u64, b: u64) -> (r: u64)
    ensures
        r == sat_add64(a, b),
{
    if a <= u64::MAX - b {
        a + b
    } else {
        u64::MAX
    }
}

pub fn sat_sub_u64(a: u64, b: u64) -> (r: u64)
    ensures
        r == sat_sub64(a, b),
{
    if a >= b {
        a - b
    } else {
        0
    }
}

pub fn sat_add_u32(a: u32, b: u32) -> (r: u32)
    ensures
        r == sat_add32(a, b),
{
    if a <= u32::MAX - b {
        a + b
    } else {
        u32::MAX
    }
}

/// The balance a table holds for an asset; absent assets hold zero.
pub open spec fn table_lookup(t: Seq<(AssetId, u128)>, a: AssetId) -> u128
    decreases t.len(),
{
    if t.len() == 0 {
        0
    } else if t[0].0 == a {
        t[0].1
    } else {
        table_lookup(t.skip(1), a)
    }
}

/// The table with the binding for `a` set to `v`, keeping entry order.
pub open spec fn table_set(t: Seq<(AssetId, u128)>, a: AssetId, v: u128) -> Seq<(AssetId, u128)>
    decreases t.len(),
{
    if t.len() == 0 {
        seq![(a, v)]
    } else if t[0].0 == a {
        seq![(a, v)] + t.skip(1)
    } else {
        seq![t[0]] + table_set(t.skip(1), a, v)
    }
}

pub proof fn lemma_table_set_lookup(t: Seq<(AssetId, u128)>, a: AssetId, v: u128)
    ensures
        table_lookup(table_set(t, a, v), a) == v,
    decreases t.len(),
{
    if t.len() > 0 && t[0].0 != a {
        lemma_table_set_lookup(t.skip(1), a, v);
        let r = seq![t[0]] + table_set(t.skip(1), a, v);
        assert(r[0] == t[0]);
        assert(r.skip(1) =~= table_set(t.skip(1), a, v));
    } else if t.len() > 0 {
        let r = seq![(a, v)] + t.skip(1);
        assert(r[0] == (a, v));
    } else {
        assert(table_set(t, a, v)[0] == (a, v));
    }
}

pub proof fn lemma_table_set_lookup_other(t: Seq<(AssetId, u128)>, a: AssetId, b: AssetId, v: u128)
    requires
        b != a,
    ensures
        table_lookup(table_set(t, a, v), b) == table_lookup(t, b),
    decreases t.len(),
{
    if t.len() == 0 {
        let r = table_set(t, a, v);
        assert(r == seq![(a, v)]);
        assert(r[0] == (a, v));
        assert(r.skip(1) =~= Seq::<(AssetId, u128)>::empty());
        assert(table_lookup(r, b) == table_lookup(r.skip(1), b));
        assert(table_lookup(r.skip(1), b) == 0);
    } else if t[0].0 == a {
        let r = seq![(a, v)] + t.skip(1);
        assert(table_set(t, a, v) == r);
        assert(r[0] == (a, v));
        assert(r.skip(1) =~= t.skip(1));
        assert(table_lookup(r, b) == table_lookup(t.skip(1), b));
        assert(table_lookup(t, b) == table_lookup(t.skip(1), b));
    } else {
        lemma_table_set_lookup_other(t.skip(1), a, b, v);
        let r = seq![t[0]] + table_set(t.skip(1), a, v);
        assert(table_set(t, a, v) == r);
        assert(r[0] == t[0]);
        assert(r.skip(1) =~= table_set(t.skip(1), a, v));
        if t[0].0 == b {
            assert(table_lookup(r, b) == t[0].1);
        } else {
            assert(table_lookup(r, b) == table_lookup(table_set(t.skip(1), a, v), b));
        }
    }
}

pub proof fn lemma_table_set_len(t: Seq<(AssetId, u128)>, a: AssetId, v: u128)
    ensures
        table_set(t, a, v).len() <= t.len() + 1,
    decreases t.len(),
{
    if t.len() > 0 && t[0].0 != a {
        lemma_table_set_len(t.skip(1), a, v);
    }
}

/// Well-formedness of the ledger contents: every balance entry decodes to a
/// table and is of a size the machine could hold, the replay cursor decodes,
/// and every accumulator cell is one 16-byte counter.
pub open spec fn wf_ledger(m: Map<Seq<u8>, Seq<u8>>) -> bool {
    &&& forall|k: Seq<u8>|
        #[trigger] m.contains_key(k) ==> is_acct_key(k) ==> table_dec(m[k]).is_some() && m[k].len()
            <= usize::MAX
    &&& (m.contains_key(state_info_key()) ==> info_dec(m[state_info_key()]).is_some())
    &&& forall|k: Seq<u8>| #[trigger] m.contains_key(k) ==> is_lmp_key(k) ==> m[k].len() == 16
}

/// The balance table stored for an account; accounts never written hold the
/// empty table.
pub open spec fn stored_table(m: Map<Seq<u8>, Seq<u8>>, who: u64) -> Seq<(AssetId, u128)> {
    if m.contains_key(acct_key(who)) {
        match table_dec(m[acct_key(who)]) {
            Some(t) => t,
            None => Seq::empty(),
        }
    } else {
        Seq::empty()
    }
}

/// The ledger balance of (account, asset).
pub open spec fn ledger_balance(m: Map<Seq<u8>, Seq<u8>>, who: u64, asset: AssetId) -> u128 {
    table_lookup(stored_table(m, who), asset)
}

/// The contents after writing one balance.
pub open spec fn ledger_set(m: Map<Seq<u8>, Seq<u8>>, who: u64, asset: AssetId, v: u128) -> Map<
    Seq<u8>,
    Seq<u8>,
> {
    m.insert(acct_key(who), table_enc(table_set(stored_table(m, who), asset, v)))
}

/// The replay cursor the contents hold; a missing or undecodable entry reads
/// as the default cursor.
pub open spec fn state_info_of(m: Map<Seq<u8>, Seq<u8>>) -> StateInfo {
    if m.contains_key(state_info_key()) {
        match info_dec(m[state_info_key()]) {
            Some(i) => i,
            None => StateInfo { last_block: 0, worker_nonce: 0, stid: 0, snapshot_id: 0 },
        }
    } else {
        StateInfo { last_block: 0, worker_nonce: 0, stid: 0, snapshot_id: 0 }
    }
}

/// The running total an accumulator cell holds; absent cells hold zero.
pub open spec fn lmp_value(m: Map<Seq<u8>, Seq<u8>>, k: Seq<u8>) -> u128 {
    if m.contains_key(k) && m[k].len() == 16 {
        le_val(m[k]) as u128
    } else {
        0
    }
}

/// The contents after accumulating `v` into a cell, saturating.
pub open spec fn lmp_bump(m: Map<Seq<u8>, Seq<u8>>, k: Seq<u8>, v: u128) -> Map<Seq<u8>, Seq<u8>> {
    m.insert(k, le_bytes(sat_add(lmp_value(m, k), v) as nat, 16))
}

/// A well-formed ledger leaves a balance table ample room to grow: the
/// machine could not have stored a table near the count limit.
pub proof fn lemma_wf_stored_table_small(m: Map<Seq<u8>, Seq<u8>>, who: u64)
    requires
        wf_ledger(m),
    ensures
        stored_table(m, who).len() + 8 < pow256(8),
{
    lemma_pow256_values();
    lemma_key_shapes(who, 0, AssetId::Polkadex, AssetId::Polkadex, 0, 0);
    if m.contains_key(acct_key(who)) && table_dec(m[acct_key(who)]).is_some() {
        let bytes = m[acct_key(who)];
        let n = le_val(bytes.subrange(0, 8)) as int;
        assert(bytes.len() == 8 + 33 * n);
        assert(bytes.len() <= usize::MAX);
        assert(usize::MAX <= 0xFFFF_FFFF_FFFF_FFFF);
    }
}

/// How one balance write reads back: the written pair holds the new value,
/// everything else is untouched — other assets of the account, other
/// accounts, the cursor, and the accumulator cells.
pub proof fn lemma_ledger_set_effect(
    m: Map<Seq<u8>, Seq<u8>>,
    who: u64,
    asset: AssetId,
    v: u128,
    who2: u64,
    asset2: AssetId,
)
    requires
        stored_table(m, who).len() + 1 < pow256(8),
    ensures
        stored_table(ledger_set(m, who, asset, v), who) == table_set(
            stored_table(m, who),
            asset,
            v,
        ),
        who2 != who ==> stored_table(ledger_set(m, who, asset, v), who2) == stored_table(m, who2),
        ledger_balance(ledger_set(m, who, asset, v), who2, asset2) == if who2 == who {
            if asset2 == asset {
                v
            } else {
                ledger_balance(m, who, asset2)
            }
        } else {
            ledger_balance(m, who2, asset2)
        },
        state_info_of(ledger_set(m, who, asset, v)) == state_info_of(m),
        forall|k: Seq<u8>|
            is_lmp_key(k) ==> #[trigger] lmp_value(ledger_set(m, who, asset, v), k) == lmp_value(
                m,
                k,
            ),
{
    let m2 = ledger_set(m, who, asset, v);
    let t = stored_table(m, who);
    let ts = table_set(t, asset, v);
    lemma_key_shapes(who, 0, AssetId::Polkadex, AssetId::Polkadex, 0, 0);
    assert(ts.len() < pow256(8)) by {
        lemma_table_set_len(t, asset, v);
    }
    lemma_table_roundtrip(ts);
    assert(stored_table(m2, who) == ts);
    if who2 == who {
        if asset2 == asset {
            lemma_table_set_lookup(t, asset, v);
        } else {
            lemma_table_set_lookup_other(t, asset, asset2, v);
        }
    } else {
        assert(acct_key(who2) != acct_key(who)) by {
            if acct_key(who2) == acct_key(who) {
                lemma_acct_key_injective(who2, who);
            }
        }
    }
    assert(state_info_key() != acct_key(who));
    assert forall|k: Seq<u8>| is_lmp_key(k) implies #[trigger] lmp_value(m2, k) == lmp_value(
        m,
        k,
    ) by {
        assert(!is_lmp_key(acct_key(who))) by {
            lemma_key_shapes(who, 0, AssetId::Polkadex, AssetId::Polkadex, 0, 0);
        }
        assert(k != acct_key(who));
    }
}

/// How one accumulator write reads back: the cell holds the bumped total,
/// and balances, the cursor, and every other cell are untouched.
pub proof fn lemma_lmp_bump_effect(m: Map<Seq<u8>, Seq<u8>>, k: Seq<u8>, v: u128)
    requires
        is_lmp_key(k),
    ensures
        lmp_value(lmp_bump(m, k, v), k) == sat_add(lmp_value(m, k), v),
        forall|k2: Seq<u8>| k2 != k ==> #[trigger] lmp_value(lmp_bump(m, k, v), k2) == lmp_value(
            m,
            k2,
        ),
        forall|who: u64, asset: AssetId|
            #[trigger] ledger_balance(lmp_bump(m, k, v), who, asset) == ledger_balance(
                m,
                who,
                asset,
            ),
        state_info_of(lmp_bump(m, k, v)) == state_info_of(m),
        wf_ledger(m) ==> wf_ledger(lmp_bump(m, k, v)),
{
    let m2 = lmp_bump(m, k, v);
    lemma_le_bytes_len(sat_add(lmp_value(m, k), v) as nat, 16);
    lemma_pow256_values();
    lemma_le_roundtrip_for_cell(sat_add(lmp_value(m, k), v));
    assert forall|who: u64, asset: AssetId| #[trigger] ledger_balance(m2, who, asset)
        == ledger_balance(m, who, asset) by {
        lemma_key_shapes(who, 0, AssetId::Polkadex, AssetId::Polkadex, 0, 0);
        assert(!is_acct_key(k));
        assert(acct_key(who) != k);
    }
    assert(state_info_key() != k) by {
        lemma_key_shapes(0, 0, AssetId::Polkadex, AssetId::Polkadex, 0, 0);
    }
}

proof fn lemma_le_roundtrip_for_cell(x: u128)
    ensures
        le_val(le_bytes(x as nat, 16)) == x,
        le_bytes(x as nat, 16).len() == 16,
{
    lemma_pow256_values();
    crate::codec::lemma_le_roundtrip(x as nat, 16);
    lemma_le_bytes_len(x as nat, 16);
}

} // verus!
