//! The ledger store: a content-addressed key/value arena with an in-memory
//! overlay of pending writes.
//!
//! Reads and writes are buffered in the overlay; `commit` folds the overlay
//! into the committed arena, which is kept strictly sorted by key, and hashes
//! its canonical serialization. Because a strictly sorted entry list is
//! uniquely determined by the map it holds, the root is a function of the
//! store's abstract contents alone: identical mutations always reproduce the
//! identical root.
use vstd::prelude::*;

use crate::codec::{encode_kvs, kvs_enc, kvs_view};
use crate::crypto::{blake2_of, hash_blake2_256};

verus! {

/// Strict lexicographic order on byte strings; a proper prefix sorts first.
pub open spec fn lex_lt(a: Seq<u8>, b: Seq<u8>) -> bool
    decreases a.len(),
{
    b.len() > 0 && (a.len() == 0 || a[0] < b[0] || (a[0] == b[0] && lex_lt(a.skip(1), b.skip(1))))
}

pub proof fn lemma_lex_lt_asymmetric(a: Seq<u8>, b: Seq<u8>)
    requires
        lex_lt(a, b),
    ensures
        !lex_lt(b, a),
        a != b,
    decreases a.len(),
{
    if a.len() > 0 && b.len() > 0 && a[0] == b[0] {
        lemma_lex_lt_asymmetric(a.skip(1), b.skip(1));
        assert(a != b) by {
            assert(a.skip(1) != b.skip(1));
        }
    }
}

pub proof fn lemma_lex_lt_connected(a: Seq<u8>, b: Seq<u8>)
    requires
        a != b,
    ensures
        lex_lt(a, b) || lex_lt(b, a),
    decreases a.len(),
{
    if a.len() == 0 {
        if b.len() == 0 {
            assert(a =~= b);
        }
    } else if b.len() == 0 {
    } else if a[0] == b[0] {
        assert(a.skip(1) != b.skip(1)) by {
            if a.skip(1) == b.skip(1) {
                assert(a =~= seq![a[0]] + a.skip(1));
                assert(b =~= seq![b[0]] + b.skip(1));
            }
        }
        lemma_lex_lt_connected(a.skip(1), b.skip(1));
    }
}

pub proof fn lemma_lex_lt_transitive(a: Seq<u8>, b: Seq<u8>, c: Seq<u8>)
    requires
        lex_lt(a, b),
        lex_lt(b, c),
    ensures
        lex_lt(a, c),
    decreases a.len(),
{
    if a.len() > 0 && b.len() > 0 && c.len() > 0 && a[0] == b[0] && b[0] == c[0] {
        lemma_lex_lt_transitive(a.skip(1), b.skip(1), c.skip(1));
    }
}

/// Compares two keys; mirrors `lex_lt` on their bytes.
pub fn key_lt(a: &Vec<u8>, b: &Vec<u8>) -> (r: bool)
    ensures
        r == lex_lt(a@, b@),
{
    let alen = a.len();
    let blen = b.len();
    let mut i: usize = 0;
    proof {
        assert(a@.skip(0) =~= a@);
        assert(b@.skip(0) =~= b@);
    }
    while i < alen && i < blen
        invariant
            i <= alen,
            i <= blen,
            alen == a@.len(),
            blen == b@.len(),
            lex_lt(a@, b@) == lex_lt(a@.skip(i as int), b@.skip(i as int)),
            forall|j: int| 0 <= j < i ==> a@[j] == b@[j],
        decreases alen - i,
    {
        if a[i] < b[i] {
            assert(a@.skip(i as int)[0] == a@[i as int]);
            assert(b@.skip(i as int)[0] == b@[i as int]);
            return true;
        }
        if a[i] > b[i] {
            assert(a@.skip(i as int)[0] == a@[i as int]);
            assert(b@.skip(i as int)[0] == b@[i as int]);
            return false;
        }
        proof {
            assert(a@.skip(i as int).skip(1) =~= a@.skip(i + 1));
            assert(b@.skip(i as int).skip(1) =~= b@.skip(i + 1));
        }
        i = i + 1;
    }
    proof {
        if i == alen {
            assert(a@.skip(i as int) =~= Seq::<u8>::empty());
        } else {
            assert(b@.skip(i as int) =~= Seq::<u8>::empty());
        }
    }
    alen < blen
}

/// Byte-for-byte key equality.
pub fn key_eq(a: &Vec<u8>, b: &Vec<u8>) -> (r: bool)
    ensures
        r == (a@ == b@),
{
    let alen = a.len();
    if alen != b.len() {
        return false;
    }
    let mut i: usize = 0;
    while i < alen
        invariant
            i <= alen,
            alen == a@.len(),
            alen == b@.len(),
            forall|j: int| 0 <= j < i ==> a@[j] == b@[j],
        decreases alen - i,
    {
        if a[i] != b[i] {
            return false;
        }
        i = i + 1;
    }
    proof {
        assert(a@ =~= b@);
    }
    true
}

/// The map a write log denotes when applied over `m`, later entries winning.
pub open spec fn log_apply(m: Map<Seq<u8>, Seq<u8>>, log: Seq<(Seq<u8>, Seq<u8>)>) -> Map<
    Seq<u8>,
    Seq<u8>,
>
    decreases log.len(),
{
    if log.len() == 0 {
        m
    } else {
        log_apply(m, log.drop_last()).insert(log.last().0, log.last().1)
    }
}

/// The map an entry list denotes.
pub open spec fn entries_map(s: Seq<(Seq<u8>, Seq<u8>)>) -> Map<Seq<u8>, Seq<u8>> {
    log_apply(Map::empty(), s)
}

/// A key written at `i` and never after denotes the value written there.
pub proof fn lemma_log_apply_last_hit(
    m: Map<Seq<u8>, Seq<u8>>,
    log: Seq<(Seq<u8>, Seq<u8>)>,
    i: int,
)
    requires
        0 <= i < log.len(),
        forall|j: int| i < j < log.len() ==> log[j].0 != log[i].0,
    ensures
        log_apply(m, log).contains_key(log[i].0),
        log_apply(m, log)[log[i].0] == log[i].1,
    decreases log.len(),
{
    if i == log.len() - 1 {
    } else {
        assert(log.drop_last()[i] == log[i]);
        lemma_log_apply_last_hit(m, log.drop_last(), i);
    }
}

/// A key never written stays as `m` has it.
pub proof fn lemma_log_apply_miss(m: Map<Seq<u8>, Seq<u8>>, log: Seq<(Seq<u8>, Seq<u8>)>, k: Seq<
    u8,
>)
    requires
        forall|j: int| 0 <= j < log.len() ==> log[j].0 != k,
    ensures
        log_apply(m, log).contains_key(k) == m.contains_key(k),
        m.contains_key(k) ==> log_apply(m, log)[k] == m[k],
    decreases log.len(),
{
    if log.len() > 0 {
        assert(forall|j: int| 0 <= j < log.drop_last().len() ==> log.drop_last()[j] == log[j]);
        lemma_log_apply_miss(m, log.drop_last(), k);
    }
}

/// Extending the log by one entry inserts that entry's binding.
pub proof fn lemma_log_apply_snoc(
    m: Map<Seq<u8>, Seq<u8>>,
    log: Seq<(Seq<u8>, Seq<u8>)>,
    e: (Seq<u8>, Seq<u8>),
)
    ensures
        log_apply(m, log.push(e)) == log_apply(m, log).insert(e.0, e.1),
{
    assert(log.push(e).drop_last() =~= log);
    assert(log.push(e).last() == e);
}

/// Strictly ascending keys.
pub open spec fn entries_sorted(s: Seq<(Seq<u8>, Seq<u8>)>) -> bool {
    forall|i: int, j: int| 0 <= i < j < s.len() ==> lex_lt(s[i].0, s[j].0)
}

/// Every key of the denoted map appears in the list and conversely.
pub proof fn lemma_entries_map_dom(s: Seq<(Seq<u8>, Seq<u8>)>, k: Seq<u8>)
    ensures
        entries_map(s).contains_key(k) <==> exists|i: int| 0 <= i < s.len() && s[i].0 == k,
    decreases s.len(),
{
    if s.len() > 0 {
        lemma_entries_map_dom_inner(Map::empty(), s, k);
    } else {
        assert(!entries_map(s).contains_key(k));
    }
}

proof fn lemma_entries_map_dom_inner(
    m: Map<Seq<u8>, Seq<u8>>,
    s: Seq<(Seq<u8>, Seq<u8>)>,
    k: Seq<u8>,
)
    ensures
        log_apply(m, s).contains_key(k) <==> (m.contains_key(k) || exists|i: int|
            0 <= i < s.len() && s[i].0 == k),
    decreases s.len(),
{
    if s.len() > 0 {
        lemma_entries_map_dom_inner(m, s.drop_last(), k);
        if s.last().0 == k {
            assert(s[s.len() - 1].0 == k);
        } else {
            assert forall|i: int| 0 <= i < s.drop_last().len() && s.drop_last()[i].0 == k implies
                exists|i2: int| 0 <= i2 < s.len() && s[i2].0 == k by {
                assert(s[i] == s.drop_last()[i]);
            }
            assert forall|i: int| 0 <= i < s.len() && s[i].0 == k implies exists|i2: int|
                0 <= i2 < s.drop_last().len() && s.drop_last()[i2].0 == k by {
                assert(i < s.len() - 1);
                assert(s.drop_last()[i].0 == k);
            }
        }
    }
}

/// Two strictly sorted entry lists denoting the same map are the same list:
/// the committed arena is canonical for its contents.
pub proof fn lemma_sorted_entries_unique(s1: Seq<(Seq<u8>, Seq<u8>)>, s2: Seq<(Seq<u8>, Seq<u8>)>)
    requires
        entries_sorted(s1),
        entries_sorted(s2),
        entries_map(s1) == entries_map(s2),
    ensures
        s1 == s2,
    decreases s1.len(),
{
    let m = entries_map(s1);
    if s1.len() == 0 {
        if s2.len() > 0 {
            lemma_entries_map_dom(s1, s2.last().0);
            lemma_entries_map_dom(s2, s2.last().0);
            assert(s2[s2.len() - 1].0 == s2.last().0);
        }
        assert(s1 =~= s2);
    } else if s2.len() == 0 {
        lemma_entries_map_dom(s1, s1.last().0);
        lemma_entries_map_dom(s2, s1.last().0);
        assert(s1[s1.len() - 1].0 == s1.last().0);
        assert(s1 =~= s2);
    } else {
        let k1 = s1.last().0;
        let k2 = s2.last().0;
        // The greatest key of each list is the greatest key of the map.
        assert(s1[s1.len() - 1].0 == k1);
        assert(s2[s2.len() - 1].0 == k2);
        lemma_entries_map_dom(s1, k1);
        lemma_entries_map_dom(s2, k1);
        lemma_entries_map_dom(s1, k2);
        lemma_entries_map_dom(s2, k2);
        let i2 = choose|i: int| 0 <= i < s2.len() && s2[i].0 == k1;
        let i1 = choose|i: int| 0 <= i < s1.len() && s1[i].0 == k2;
        if k1 != k2 {
            assert(i2 < s2.len() - 1);
            assert(lex_lt(k1, k2));
            assert(i1 < s1.len() - 1);
            assert(lex_lt(k2, k1));
            lemma_lex_lt_asymmetric(k1, k2);
            assert(false);
        }
        // Last entries carry the map's value at that key.
        assert(log_apply(Map::empty(), s1)[k1] == s1.last().1);
        assert(log_apply(Map::empty(), s2)[k1] == s2.last().1);
        // The key is absent from both prefixes, so the prefixes denote
        // the map without it.
        assert forall|j: int| 0 <= j < s1.drop_last().len() implies s1.drop_last()[j].0 != k1 by {
            assert(s1.drop_last()[j] == s1[j]);
            assert(lex_lt(s1[j].0, k1));
            lemma_lex_lt_asymmetric(s1[j].0, k1);
        }
        assert forall|j: int| 0 <= j < s2.drop_last().len() implies s2.drop_last()[j].0 != k1 by {
            assert(s2.drop_last()[j] == s2[j]);
            assert(lex_lt(s2[j].0, k1));
            lemma_lex_lt_asymmetric(s2[j].0, k1);
        }
        lemma_entries_map_dom(s1.drop_last(), k1);
        lemma_entries_map_dom(s2.drop_last(), k1);
        assert(entries_map(s1.drop_last()) =~= m.remove(k1)) by {
            lemma_log_apply_miss(Map::empty(), s1.drop_last(), k1);
            assert forall|k: Seq<u8>| k != k1 implies #[trigger] entries_map(
                s1.drop_last(),
            ).contains_key(k) == m.contains_key(k) && (m.contains_key(k) ==> entries_map(
                s1.drop_last(),
            )[k] == m[k]) by {
                assert(entries_map(s1) == entries_map(s1.drop_last()).insert(k1, s1.last().1));
            }
        }
        assert(entries_map(s2.drop_last()) =~= m.remove(k1)) by {
            lemma_log_apply_miss(Map::empty(), s2.drop_last(), k1);
            assert forall|k: Seq<u8>| k != k1 implies #[trigger] entries_map(
                s2.drop_last(),
            ).contains_key(k) == m.contains_key(k) && (m.contains_key(k) ==> entries_map(
                s2.drop_last(),
            )[k] == m[k]) by {
                assert(entries_map(s2) == entries_map(s2.drop_last()).insert(k1, s2.last().1));
            }
        }
        assert(entries_sorted(s1.drop_last())) by {
            assert(forall|i: int, j: int|
                0 <= i < j < s1.drop_last().len() ==> s1.drop_last()[i] == s1[i]
                    && s1.drop_last()[j] == s1[j]);
        }
        assert(entries_sorted(s2.drop_last())) by {
            assert(forall|i: int, j: int|
                0 <= i < j < s2.drop_last().len() ==> s2.drop_last()[i] == s2[i]
                    && s2.drop_last()[j] == s2[j]);
        }
        lemma_sorted_entries_unique(s1.drop_last(), s2.drop_last());
        assert(s1 =~= s2) by {
            assert(s1.drop_last() == s2.drop_last());
            assert(s1.last() == s2.last());
            assert(s1.len() == s2.len());
            assert(forall|i: int|
                0 <= i < s1.len() - 1 ==> s1[i] == s1.drop_last()[i] && s2[i]
                    == s2.drop_last()[i]);
        }
    }
}

/// Inserting an entry whose key is absent from the tail denotes an insert
/// into the map the surrounding list denotes.
pub proof fn lemma_entries_map_mid_insert(
    u: Seq<(Seq<u8>, Seq<u8>)>,
    e: (Seq<u8>, Seq<u8>),
    v: Seq<(Seq<u8>, Seq<u8>)>,
)
    requires
        forall|j: int| 0 <= j < v.len() ==> v[j].0 != e.0,
    ensures
        entries_map(u + seq![e] + v) == entries_map(u + v).insert(e.0, e.1),
    decreases v.len(),
{
    if v.len() == 0 {
        assert(u + seq![e] + v =~= u.push(e));
        assert(u + v =~= u);
        lemma_log_apply_snoc(Map::empty(), u, e);
    } else {
        let w = v.drop_last();
        let x = v.last();
        assert(forall|j: int| 0 <= j < w.len() ==> w[j] == v[j]);
        lemma_entries_map_mid_insert(u, e, w);
        assert((u + seq![e] + v).drop_last() =~= u + seq![e] + w);
        assert((u + seq![e] + v).last() == x);
        assert((u + v).drop_last() =~= u + w);
        assert((u + v).last() == x);
        assert(entries_map(u + seq![e] + v) == entries_map(u + seq![e] + w).insert(x.0, x.1));
        assert(entries_map(u + v) == entries_map(u + w).insert(x.0, x.1));
        assert(x.0 != e.0) by {
            assert(v[v.len() - 1] == x);
        }
        assert(entries_map(u + w).insert(e.0, e.1).insert(x.0, x.1) =~= entries_map(
            u + w,
        ).insert(x.0, x.1).insert(e.0, e.1));
    }
}

/// Copies a byte string.
pub fn clone_bytes(v: &Vec<u8>) -> (r: Vec<u8>)
    ensures
        r@ == v@,
{
    let mut r: Vec<u8> = Vec::new();
    let mut i: usize = 0;
    while i < v.len()
        invariant
            i <= v@.len(),
            r@ == v@.take(i as int),
        decreases v@.len() - i,
    {
        r.push(v[i]);
        proof {
            assert(v@.take(i + 1) =~= v@.take(i as int).push(v@[i as int]));
        }
        i = i + 1;
    }
    proof {
        assert(v@.take(v@.len() as int) =~= v@);
    }
    r
}

/// Inserts or replaces a binding in a strictly sorted entry list, keeping it
/// sorted; denotes a map insert.
fn sorted_insert(entries: &mut Vec<(Vec<u8>, Vec<u8>)>, key: Vec<u8>, value: Vec<u8>)
    requires
        entries_sorted(kvs_view(old(entries)@)),
    ensures
        entries_sorted(kvs_view(final(entries)@)),
        entries_map(kvs_view(final(entries)@)) == entries_map(kvs_view(old(entries)@)).insert(
            key@,
            value@,
        ),
{
    let ghost s = kvs_view(entries@);
    let n = entries.len();
    let mut i: usize = 0;
    while i < n && key_lt(&entries[i].0, &key)
        invariant
            i <= n,
            n == entries@.len(),
            s == kvs_view(entries@),
            forall|j: int| 0 <= j < i ==> lex_lt(s[j].0, key@),
        decreases n - i,
    {
        i = i + 1;
    }
    let ghost u = s.take(i as int);
    if i < n && key_eq(&entries[i].0, &key) {
        // Replace the binding in place.
        let ghost v = s.skip(i as int + 1);
        proof {
            assert forall|j: int| 0 <= j < v.len() implies v[j].0 != key@ by {
                assert(v[j] == s[i + 1 + j]);
                assert(lex_lt(s[i as int].0, s[i + 1 + j].0));
                lemma_lex_lt_asymmetric(key@, s[i + 1 + j].0);
            }
            assert(s =~= u + seq![s[i as int]] + v);
            lemma_entries_map_mid_insert(u, s[i as int], v);
        }
        entries[i] = (key, value);
        proof {
            let s2 = kvs_view(entries@);
            assert(s2 =~= u + seq![(key@, value@)] + v);
            lemma_entries_map_mid_insert(u, (key@, value@), v);
            assert(entries_map(u + v).insert(key@, s[i as int].1).insert(key@, value@)
                =~= entries_map(u + v).insert(key@, value@));
            assert(entries_sorted(s2)) by {
                assert forall|a: int, b: int| 0 <= a < b < s2.len() implies lex_lt(
                    s2[a].0,
                    s2[b].0,
                ) by {
                    assert(s2[a].0 == s[a].0 && s2[b].0 == s[b].0);
                }
            }
        }
    } else {
        // A fresh binding: every later key is strictly greater.
        let ghost v = s.skip(i as int);
        proof {
            if i < n {
                assert(!lex_lt(s[i as int].0, key@));
                assert(s[i as int].0 != key@);
                lemma_lex_lt_connected(s[i as int].0, key@);
                assert(lex_lt(key@, s[i as int].0));
            }
            assert forall|j: int| 0 <= j < v.len() implies lex_lt(key@, v[j].0) && v[j].0
                != key@ by {
                assert(v[j] == s[i + j]);
                if j > 0 {
                    assert(lex_lt(s[i as int].0, s[i + j].0));
                    lemma_lex_lt_transitive(key@, s[i as int].0, s[i + j].0);
                }
                lemma_lex_lt_asymmetric(key@, s[i + j].0);
            }
            assert(s =~= u + v);
            lemma_entries_map_mid_insert(u, (key@, value@), v);
        }
        entries.insert(i, (key, value));
        proof {
            let s2 = kvs_view(entries@);
            assert(s2 =~= u + seq![(key@, value@)] + v);
            assert(entries_sorted(s2)) by {
                assert forall|a: int, b: int| 0 <= a < b < s2.len() implies lex_lt(
                    s2[a].0,
                    s2[b].0,
                ) by {
                    if b < i {
                        assert(s2[a] == s[a] && s2[b] == s[b]);
                    } else if a < i && b == i {
                        assert(s2[a] == s[a]);
                        assert(lex_lt(s[a].0, key@));
                    } else if a < i && b > i {
                        assert(s2[a] == s[a] && s2[b] == s[b - 1]);
                    } else if a == i {
                        assert(s2[b] == s[b - 1]);
                        assert(v[b - 1 - i] == s[b - 1]);
                    } else {
                        assert(s2[a] == s[a - 1] && s2[b] == s[b - 1]);
                    }
                }
            }
        }
    }
}

/// The unique strictly sorted entry list denoting `m`, where one exists.
pub open spec fn canonical_entries(m: Map<Seq<u8>, Seq<u8>>) -> Seq<(Seq<u8>, Seq<u8>)> {
    choose|s: Seq<(Seq<u8>, Seq<u8>)>| entries_sorted(s) && entries_map(s) == m
}

/// A sorted list is the canonical list of its own map.
pub proof fn lemma_canonical_of_sorted(s: Seq<(Seq<u8>, Seq<u8>)>)
    requires
        entries_sorted(s),
    ensures
        canonical_entries(entries_map(s)) == s,
{
    let m = entries_map(s);
    assert(exists|s2: Seq<(Seq<u8>, Seq<u8>)>| entries_sorted(s2) && entries_map(s2) == m) by {
        assert(entries_sorted(s) && entries_map(s) == m);
    }
    let c = canonical_entries(m);
    lemma_sorted_entries_unique(c, s);
}

/// The content-derived fingerprint of the ledger contents `m`: the blake2
/// digest of the canonical serialization. Meaningful whenever `m` has a
/// sorted entry list, which every reachable store state does.
pub open spec fn state_root_of(m: Map<Seq<u8>, Seq<u8>>) -> Seq<u8> {
    blake2_of(kvs_enc(canonical_entries(m)))
}

/// The persistent, trie-like key/value store: a committed, strictly sorted
/// arena plus an overlay log of pending writes.
pub struct OffchainState {
    /// Committed entries, strictly ascending by key.
    pub committed: Vec<(Vec<u8>, Vec<u8>)>,
    /// Pending writes in arrival order; later entries win.
    pub overlay: Vec<(Vec<u8>, Vec<u8>)>,
}

impl OffchainState {
    /// The committed contents, as a map.
    pub open spec fn committed_map(self) -> Map<Seq<u8>, Seq<u8>> {
        entries_map(kvs_view(self.committed@))
    }

    /// The effective contents: committed contents overlaid with pending
    /// writes.
    pub open spec fn view_map(self) -> Map<Seq<u8>, Seq<u8>> {
        log_apply(self.committed_map(), kvs_view(self.overlay@))
    }

    /// Well-formedness: the committed arena is strictly sorted.
    pub open spec fn wf(self) -> bool {
        entries_sorted(kvs_view(self.committed@))
    }

    /// An empty store.
    pub fn new() -> (r: OffchainState)
        ensures
            r.wf(),
            r.view_map() == Map::<Seq<u8>, Seq<u8>>::empty(),
            r.committed_map() == Map::<Seq<u8>, Seq<u8>>::empty(),
            r.overlay@.len() == 0,
    {
        let r = OffchainState { committed: Vec::new(), overlay: Vec::new() };
        proof {
            assert(kvs_view(r.committed@) =~= Seq::<(Seq<u8>, Seq<u8>)>::empty());
            assert(kvs_view(r.overlay@) =~= Seq::<(Seq<u8>, Seq<u8>)>::empty());
        }
        r
    }

    /// Buffers a write. Only `commit` changes the committed contents.
    pub fn insert(&mut self, key: Vec<u8>, value: Vec<u8>)
        ensures
            final(self).view_map() == old(self).view_map().insert(key@, value@),
            final(self).committed == old(self).committed,
            final(self).wf() == old(self).wf(),
    {
        let ghost oldlog = kvs_view(self.overlay@);
        self.overlay.push((key, value));
        proof {
            assert(kvs_view(self.overlay@) =~= oldlog.push((key@, value@)));
            lemma_log_apply_snoc(self.committed_map(), oldlog, (key@, value@));
        }
    }

    /// Reads a key from the effective contents: the latest pending write for
    /// it, or else the committed value.
    pub fn get(&self, key: &Vec<u8>) -> (r: Option<&Vec<u8>>)
        ensures
            match r {
                Some(v) => self.view_map().contains_key(key@) && v@ == self.view_map()[key@],
                None => !self.view_map().contains_key(key@),
            },
    {
        let ghost log = kvs_view(self.overlay@);
        let mut i: usize = self.overlay.len();
        while i > 0
            invariant
                i <= self.overlay@.len(),
                log == kvs_view(self.overlay@),
                forall|j: int| i <= j < log.len() ==> log[j].0 != key@,
            decreases i,
        {
            i = i - 1;
            if key_eq(&self.overlay[i].0, key) {
                proof {
                    lemma_log_apply_last_hit(self.committed_map(), log, i as int);
                }
                return Some(&self.overlay[i].1);
            }
        }
        proof {
            lemma_log_apply_miss(self.committed_map(), log, key@);
        }
        let r = self.committed_get(key);
        proof {
            match r {
                Some(v) => {},
                None => {},
            }
        }
        r
    }

    /// Reads a key from the committed contents only, ignoring pending writes.
    pub fn committed_get(&self, key: &Vec<u8>) -> (r: Option<&Vec<u8>>)
        ensures
            match r {
                Some(v) => self.committed_map().contains_key(key@) && v@
                    == self.committed_map()[key@],
                None => !self.committed_map().contains_key(key@),
            },
    {
        let ghost entries = kvs_view(self.committed@);
        let mut i: usize = self.committed.len();
        while i > 0
            invariant
                i <= self.committed@.len(),
                entries == kvs_view(self.committed@),
                forall|j: int| i <= j < entries.len() ==> entries[j].0 != key@,
            decreases i,
        {
            i = i - 1;
            if key_eq(&self.committed[i].0, key) {
                proof {
                    lemma_log_apply_last_hit(Map::empty(), entries, i as int);
                }
                return Some(&self.committed[i].1);
            }
        }
        proof {
            lemma_log_apply_miss(Map::empty(), entries, key@);
        }
        None
    }

    /// Folds the overlay into the committed arena and returns the
    /// content-derived root of the result. The effective contents do not
    /// change; they become committed.
    pub fn commit(&mut self) -> (root: [u8; 32])
        requires
            old(self).wf(),
        ensures
            final(self).wf(),
            final(self).view_map() == old(self).view_map(),
            final(self).committed_map() == old(self).view_map(),
            final(self).overlay@.len() == 0,
            root@ == state_root_of(old(self).view_map()),
    {
        let ghost log = kvs_view(self.overlay@);
        let ghost cm0 = self.committed_map();
        let n = self.overlay.len();
        let mut i: usize = 0;
        proof {
            assert(log.take(0) =~= Seq::<(Seq<u8>, Seq<u8>)>::empty());
        }
        while i < n
            invariant
                i <= n,
                n == self.overlay@.len(),
                log == kvs_view(self.overlay@),
                entries_sorted(kvs_view(self.committed@)),
                entries_map(kvs_view(self.committed@)) == log_apply(cm0, log.take(i as int)),
            decreases n - i,
        {
            let k = clone_bytes(&self.overlay[i].0);
            let v = clone_bytes(&self.overlay[i].1);
            sorted_insert(&mut self.committed, k, v);
            proof {
                assert(log.take(i + 1) =~= log.take(i as int).push(log[i as int]));
                lemma_log_apply_snoc(cm0, log.take(i as int), log[i as int]);
            }
            i = i + 1;
        }
        proof {
            assert(log.take(n as int) =~= log);
        }
        self.overlay = Vec::new();
        proof {
            assert(kvs_view(self.overlay@) =~= Seq::<(Seq<u8>, Seq<u8>)>::empty());
        }
        let bytes = encode_kvs(&self.committed);
        let root = hash_blake2_256(&bytes);
        proof {
            lemma_canonical_of_sorted(kvs_view(self.committed@));
        }
        root
    }

    /// Discards all pending writes: the effective contents fall back to the
    /// committed contents. The abort path of a failed replay cycle.
    pub fn discard_overlay(&mut self)
        ensures
            final(self).committed == old(self).committed,
            final(self).overlay@.len() == 0,
            final(self).view_map() == old(self).committed_map(),
            final(self).wf() == old(self).wf(),
    {
        self.overlay = Vec::new();
        proof {
            assert(kvs_view(self.overlay@) =~= Seq::<(Seq<u8>, Seq<u8>)>::empty());
        }
    }
}

} // verus!
