//! The engine's storage byte format.
//!
//! Every value the ledger store holds — balance tables, the replay cursor,
//! volume accumulators — is laid out with the fixed-width little-endian
//! encoders below, and every reserved key is built here. Decoders are proved
//! to invert the encoders, which is what makes the committed state a
//! deterministic function of the abstract ledger contents.
use vstd::prelude::*;

use crate::types::{AssetId, SnapshotSummary, StateInfo, Withdrawal, WithdrawalRequest};

verus! {

/// 256 to the power `n`: the number of values `n` bytes can hold.
pub open spec fn pow256(n: nat) -> nat
    decreases n,
{
    if n == 0 {
        1
    } else {
        256 * pow256((n - 1) as nat)
    }
}

/// The little-endian bytes of `x`, `n` bytes wide.
pub open spec fn le_bytes(x: nat, n: nat) -> Seq<u8>
    decreases n,
{
    if n == 0 {
        Seq::empty()
    } else {
        seq![(x % 256) as u8] + le_bytes(x / 256, (n - 1) as nat)
    }
}

/// The value of a little-endian byte string.
pub open spec fn le_val(s: Seq<u8>) -> nat
    decreases s.len(),
{
    if s.len() == 0 {
        0
    } else {
        (s[0] + 256 * le_val(s.skip(1))) as nat
    }
}

pub proof fn lemma_le_bytes_len(x: nat, n: nat)
    ensures
        le_bytes(x, n).len() == n,
    decreases n,
{
    if n > 0 {
        lemma_le_bytes_len(x / 256, (n - 1) as nat);
    }
}

pub proof fn lemma_le_val_bound(s: Seq<u8>)
    ensures
        le_val(s) < pow256(s.len()),
    decreases s.len(),
{
    if s.len() > 0 {
        lemma_le_val_bound(s.skip(1));
    }
}

/// Decoding inverts encoding: the value of the `n` little-endian bytes of a
/// number below `256^n` is that number again.
pub proof fn lemma_le_roundtrip(x: nat, n: nat)
    requires
        x < pow256(n),
    ensures
        le_val(le_bytes(x, n)) == x,
    decreases n,
{
    if n > 0 {
        let rest = le_bytes(x / 256, (n - 1) as nat);
        assert(le_bytes(x, n).skip(1) =~= rest);
        assert(x / 256 < pow256((n - 1) as nat)) by {
            assert(pow256(n) == 256 * pow256((n - 1) as nat));
            assert(x / 256 < pow256((n - 1) as nat)) by (nonlinear_arith)
                requires
                    x < 256 * pow256((n - 1) as nat),
                    0 <= x,
            ;
        }
        lemma_le_roundtrip(x / 256, (n - 1) as nat);
        assert(x % 256 + 256 * (x / 256) == x) by (nonlinear_arith);
    }
}

/// Two numbers below `256^n` with the same `n`-byte encoding are equal.
pub proof fn lemma_le_bytes_injective(x: nat, y: nat, n: nat)
    requires
        x < pow256(n),
        y < pow256(n),
        le_bytes(x, n) == le_bytes(y, n),
    ensures
        x == y,
{
    lemma_le_roundtrip(x, n);
    lemma_le_roundtrip(y, n);
}

pub proof fn lemma_pow256_values()
    ensures
        pow256(4) == 0x1_0000_0000,
        pow256(8) == 0x1_0000_0000_0000_0000,
        pow256(16) == 0x1_0000_0000_0000_0000_0000_0000_0000_0000,
{
    reveal_with_fuel(pow256, 17);
}

/// Appends the `n`-byte little-endian encoding of `x` to `out`.
/// `x` must fit: callers pass `n` of 4, 8 or 16 matching the integer width.
fn push_le(out: &mut Vec<u8>, x: u128, n: usize)
    requires
        x < pow256(n as nat),
    ensures
        final(out)@ == old(out)@ + le_bytes(x as nat, n as nat),
{
    let ghost start = out@;
    let mut cur: u128 = x;
    let mut j: usize = 0;
    proof {
        assert(out@ + le_bytes(cur as nat, (n - j) as nat) =~= start + le_bytes(
            x as nat,
            n as nat,
        ));
    }
    while j < n
        invariant
            j <= n,
            out@ + le_bytes(cur as nat, (n - j) as nat) == start + le_bytes(x as nat, n as nat),
        decreases n - j,
    {
        let ghost pre = out@;
        let b: u8 = (cur % 256) as u8;
        out.push(b);
        proof {
            assert(le_bytes(cur as nat, (n - j) as nat) == seq![b] + le_bytes(
                (cur / 256) as nat,
                (n - j - 1) as nat,
            ));
            assert(out@ + le_bytes((cur / 256) as nat, (n - j - 1) as nat) =~= pre + le_bytes(
                cur as nat,
                (n - j) as nat,
            ));
        }
        cur = cur / 256;
        j = j + 1;
    }
    proof {
        assert(out@ + le_bytes(cur as nat, 0) =~= out@);
    }
}

/// Reads the value of the `n` little-endian bytes of `s` starting at `off`.
/// Returns the accumulated value, which fits in `u128` for `n` up to 16.
fn read_le(s: &Vec<u8>, off: usize, n: usize) -> (r: u128)
    requires
        off + n <= s@.len(),
        n <= 16,
    ensures
        r as nat == le_val(s@.subrange(off as int, off + n)),
{
    let slen: usize = s.len();
    let mut val: u128 = 0;
    let mut j: usize = 0;
    proof {
        assert(s@.subrange(off + n, off + n) =~= Seq::<u8>::empty());
        lemma_le_val_bound(s@.subrange(off + n - j, off + n));
    }
    while j < n
        invariant
            j <= n,
            n <= 16,
            off + n <= slen,
            slen == s@.len(),
            val as nat == le_val(s@.subrange(off + n - j, off + n)),
            val < pow256(j as nat),
        decreases n - j,
    {
        let b: u8 = s[off + (n - 1 - j)];
        proof {
            let tail = s@.subrange(off + n - j, off + n);
            let whole = s@.subrange(off + n - 1 - j, off + n);
            assert(whole.skip(1) =~= tail);
            assert(le_val(whole) == b + 256 * le_val(tail));
            lemma_pow256_values();
            assert(pow256(j as nat) * 256 == pow256((j + 1) as nat)) by (nonlinear_arith);
            assert(256 * (val as nat) + b < pow256((j + 1) as nat)) by (nonlinear_arith)
                requires
                    (val as nat) < pow256(j as nat),
                    pow256(j as nat) * 256 == pow256((j + 1) as nat),
                    b < 256,
            ;
            assert(pow256((j + 1) as nat) <= pow256(16)) by {
                lemma_pow256_increases((j + 1) as nat, 16);
            }
        }
        val = val * 256 + (b as u128);
        j = j + 1;
    }
    val
}

pub proof fn lemma_pow256_increases(a: nat, b: nat)
    requires
        a <= b,
    ensures
        pow256(a) <= pow256(b),
    decreases b,
{
    if a < b {
        lemma_pow256_increases(a, (b - 1) as nat);
        lemma_pow256_pos((b - 1) as nat);
        assert(pow256(b) == 256 * pow256((b - 1) as nat));
        assert(256 * pow256((b - 1) as nat) >= pow256((b - 1) as nat)) by (nonlinear_arith)
            requires
                pow256((b - 1) as nat) >= 1,
        ;
    }
}

pub proof fn lemma_pow256_pos(n: nat)
    ensures
        pow256(n) >= 1,
    decreases n,
{
    if n > 0 {
        lemma_pow256_pos((n - 1) as nat);
    }
}

/// Encoding the value of a byte string at its own width gives the string
/// back: the second direction of the little-endian round trip.
pub proof fn lemma_le_bytes_of_le_val(s: Seq<u8>)
    ensures
        le_bytes(le_val(s), s.len()) == s,
    decreases s.len(),
{
    if s.len() > 0 {
        let t = le_val(s.skip(1));
        assert(le_val(s) == s[0] + 256 * t);
        assert((s[0] + 256 * t) % 256 == s[0] && (s[0] + 256 * t) / 256 == t) by (nonlinear_arith)
            requires
                0 <= s[0] < 256,
                0 <= t,
        ;
        lemma_le_bytes_of_le_val(s.skip(1));
        assert(le_bytes(le_val(s), s.len()) =~= s);
    } else {
        assert(le_bytes(le_val(s), s.len()) =~= s);
    }
}

/// Byte layout of an asset identifier: a tag byte, then 16 value bytes
/// (zero for the native token). Always 17 bytes.
pub open spec fn asset_enc(a: AssetId) -> Seq<u8> {
    match a {
        AssetId::Polkadex => seq![0u8] + le_bytes(0, 16),
        AssetId::Asset(v) => seq![1u8] + le_bytes(v as nat, 16),
    }
}

pub open spec fn asset_dec(s: Seq<u8>) -> Option<AssetId> {
    if s.len() == 17 {
        if s[0] == 0 && s.skip(1) == le_bytes(0, 16) {
            Some(AssetId::Polkadex)
        } else if s[0] == 1 {
            Some(AssetId::Asset(le_val(s.skip(1)) as u128))
        } else {
            None
        }
    } else {
        None
    }
}

pub proof fn lemma_asset_enc_len(a: AssetId)
    ensures
        asset_enc(a).len() == 17,
{
    lemma_le_bytes_len(0, 16);
    if let AssetId::Asset(v) = a {
        lemma_le_bytes_len(v as nat, 16);
    }
}

pub proof fn lemma_asset_roundtrip(a: AssetId)
    ensures
        asset_dec(asset_enc(a)) == Some(a),
{
    lemma_asset_enc_len(a);
    lemma_pow256_values();
    match a {
        AssetId::Polkadex => {
            assert(asset_enc(a).skip(1) =~= le_bytes(0, 16));
        },
        AssetId::Asset(v) => {
            assert(asset_enc(a).skip(1) =~= le_bytes(v as nat, 16));
            lemma_le_roundtrip(v as nat, 16);
        },
    }
}

/// Byte layout of one balance-table entry: asset, then 16 amount bytes.
/// Always 33 bytes.
pub open spec fn entry_enc(e: (AssetId, u128)) -> Seq<u8> {
    asset_enc(e.0) + le_bytes(e.1 as nat, 16)
}

pub open spec fn entry_dec(s: Seq<u8>) -> Option<(AssetId, u128)> {
    if s.len() == 33 {
        match asset_dec(s.subrange(0, 17)) {
            Some(a) => Some((a, le_val(s.subrange(17, 33)) as u128)),
            None => None,
        }
    } else {
        None
    }
}

pub proof fn lemma_entry_enc_len(e: (AssetId, u128))
    ensures
        entry_enc(e).len() == 33,
{
    lemma_asset_enc_len(e.0);
    lemma_le_bytes_len(e.1 as nat, 16);
}

pub proof fn lemma_entry_roundtrip(e: (AssetId, u128))
    ensures
        entry_dec(entry_enc(e)) == Some(e),
{
    lemma_entry_enc_len(e);
    lemma_asset_enc_len(e.0);
    lemma_le_bytes_len(e.1 as nat, 16);
    assert(entry_enc(e).subrange(0, 17) =~= asset_enc(e.0));
    assert(entry_enc(e).subrange(17, 33) =~= le_bytes(e.1 as nat, 16));
    lemma_asset_roundtrip(e.0);
    lemma_pow256_values();
    lemma_le_roundtrip(e.1 as nat, 16);
}

/// The concatenated entry encodings of a balance table.
pub open spec fn entries_enc(t: Seq<(AssetId, u128)>) -> Seq<u8>
    decreases t.len(),
{
    if t.len() == 0 {
        Seq::empty()
    } else {
        entry_enc(t[0]) + entries_enc(t.skip(1))
    }
}

pub proof fn lemma_entries_enc_len(t: Seq<(AssetId, u128)>)
    ensures
        entries_enc(t).len() == 33 * t.len(),
    decreases t.len(),
{
    if t.len() > 0 {
        lemma_entry_enc_len(t[0]);
        lemma_entries_enc_len(t.skip(1));
    }
}

/// The bytes of entry `i` sit at offset `33 * i` in the concatenation.
pub proof fn lemma_entries_enc_index(t: Seq<(AssetId, u128)>, i: int)
    requires
        0 <= i < t.len(),
    ensures
        entries_enc(t).subrange(33 * i, 33 * i + 33) == entry_enc(t[i]),
    decreases i,
{
    lemma_entries_enc_len(t);
    lemma_entry_enc_len(t[0]);
    lemma_entries_enc_len(t.skip(1));
    if i == 0 {
        assert(entries_enc(t).subrange(0, 33) =~= entry_enc(t[0]));
    } else {
        lemma_entries_enc_index(t.skip(1), i - 1);
        assert(entries_enc(t).subrange(33 * i, 33 * i + 33) =~= entries_enc(t.skip(1)).subrange(
            33 * (i - 1),
            33 * (i - 1) + 33,
        ));
        assert(t.skip(1)[i - 1] == t[i]);
    }
}

/// Appending one entry extends the concatenation at the end.
pub proof fn lemma_entries_enc_snoc(t: Seq<(AssetId, u128)>, e: (AssetId, u128))
    ensures
        entries_enc(t.push(e)) == entries_enc(t) + entry_enc(e),
    decreases t.len(),
{
    if t.len() == 0 {
        assert(t.push(e)[0] == e);
        assert(t.push(e).skip(1) =~= Seq::<(AssetId, u128)>::empty());
        assert(entries_enc(t.push(e)) == entry_enc(e) + entries_enc(
            Seq::<(AssetId, u128)>::empty(),
        ));
        assert(entries_enc(Seq::<(AssetId, u128)>::empty()) == Seq::<u8>::empty());
        assert(entries_enc(t.push(e)) =~= entries_enc(t) + entry_enc(e));
    } else {
        assert(t.push(e).skip(1) =~= t.skip(1).push(e));
        lemma_entries_enc_snoc(t.skip(1), e);
        assert(t.push(e)[0] == t[0]);
        assert(entries_enc(t.push(e)) == entry_enc(t[0]) + entries_enc(t.skip(1).push(e)));
        assert(entries_enc(t.push(e)) =~= entries_enc(t) + entry_enc(e));
    }
}

/// Byte layout of a whole balance table: an 8-byte entry count, then the
/// entries.
pub open spec fn table_enc(t: Seq<(AssetId, u128)>) -> Seq<u8> {
    le_bytes(t.len(), 8) + entries_enc(t)
}

/// The slice of `s` where decoded entry `i` must sit.
pub open spec fn entry_slice(s: Seq<u8>, i: int) -> Seq<u8> {
    s.subrange(8 + 33 * i, 8 + 33 * i + 33)
}

pub open spec fn table_dec(s: Seq<u8>) -> Option<Seq<(AssetId, u128)>> {
    if s.len() < 8 {
        None
    } else {
        let n = le_val(s.subrange(0, 8)) as int;
        if s.len() == 8 + 33 * n && (forall|i: int|
            0 <= i < n ==> entry_dec(entry_slice(s, i)).is_some()) {
            Some(Seq::new(n as nat, |i: int| entry_dec(entry_slice(s, i)).unwrap()))
        } else {
            None
        }
    }
}

pub proof fn lemma_table_roundtrip(t: Seq<(AssetId, u128)>)
    requires
        t.len() < pow256(8),
    ensures
        table_dec(table_enc(t)) == Some(t),
{
    let s = table_enc(t);
    lemma_le_bytes_len(t.len(), 8);
    lemma_entries_enc_len(t);
    assert(s.subrange(0, 8) =~= le_bytes(t.len(), 8));
    lemma_le_roundtrip(t.len(), 8);
    let n = t.len() as int;
    assert(s.len() == 8 + 33 * n);
    assert forall|i: int| 0 <= i < n implies entry_dec(entry_slice(s, i)) == Some(t[i]) by {
        lemma_entries_enc_index(t, i);
        assert(entry_slice(s, i) =~= entries_enc(t).subrange(33 * i, 33 * i + 33));
        lemma_entry_roundtrip(t[i]);
    }
    assert(Seq::new(n as nat, |i: int| entry_dec(entry_slice(s, i)).unwrap()) =~= t);
}

/// Appends the encoding of an asset identifier.
fn push_asset(out: &mut Vec<u8>, a: AssetId)
    ensures
        final(out)@ == old(out)@ + asset_enc(a),
{
    proof {
        lemma_pow256_values();
    }
    match a {
        AssetId::Polkadex => {
            out.push(0u8);
            push_le(out, 0, 16);
        },
        AssetId::Asset(v) => {
            out.push(1u8);
            push_le(out, v, 16);
        },
    }
    proof {
        assert(out@ =~= old(out)@ + asset_enc(a));
    }
}

/// Reads an asset identifier at offset `off`; mirrors `asset_dec` on the
/// 17-byte slice there.
fn read_asset(s: &Vec<u8>, off: usize) -> (r: Option<AssetId>)
    requires
        off + 17 <= s@.len(),
    ensures
        r == asset_dec(s@.subrange(off as int, off + 17)),
{
    proof {
        lemma_pow256_values();
    }
    let slen = s.len();
    let ghost piece = s@.subrange(off as int, off + 17);
    let tag = s[off];
    assert(piece[0] == tag);
    let v = read_le(s, off + 1, 16);
    proof {
        assert(piece.skip(1) =~= s@.subrange(off + 1, off + 17));
    }
    if tag == 0 {
        if v == 0 {
            proof {
                lemma_le_bytes_of_le_val(piece.skip(1));
            }
            Some(AssetId::Polkadex)
        } else {
            proof {
                lemma_le_roundtrip(0, 16);
                assert(piece.skip(1) != le_bytes(0, 16));
            }
            None
        }
    } else if tag == 1 {
        Some(AssetId::Asset(v))
    } else {
        None
    }
}

/// Reads one balance-table entry at offset `off`; mirrors `entry_dec` on the
/// 33-byte slice there.
fn read_entry(s: &Vec<u8>, off: usize) -> (r: Option<(AssetId, u128)>)
    requires
        off + 33 <= s@.len(),
    ensures
        r == entry_dec(s@.subrange(off as int, off + 33)),
{
    let slen = s.len();
    let ghost piece = s@.subrange(off as int, off + 33);
    let a = read_asset(s, off);
    proof {
        assert(piece.subrange(0, 17) =~= s@.subrange(off as int, off + 17));
        assert(piece.subrange(17, 33) =~= s@.subrange(off + 17, off + 33));
    }
    match a {
        Some(asset) => {
            let v = read_le(s, off + 17, 16);
            Some((asset, v))
        },
        None => None,
    }
}

/// Encodes a balance table into its storage bytes.
pub fn encode_table(t: &Vec<(AssetId, u128)>) -> (r: Vec<u8>)
    ensures
        r@ == table_enc(t@),
{
    let mut out: Vec<u8> = Vec::new();
    proof {
        lemma_pow256_values();
    }
    push_le(&mut out, t.len() as u128, 8);
    let mut i: usize = 0;
    proof {
        assert(t@.take(0) =~= Seq::<(AssetId, u128)>::empty());
    }
    while i < t.len()
        invariant
            i <= t@.len(),
            out@ == le_bytes(t@.len(), 8) + entries_enc(t@.take(i as int)),
        decreases t@.len() - i,
    {
        let (a, v) = t[i];
        push_asset(&mut out, a);
        proof {
            lemma_pow256_values();
        }
        push_le(&mut out, v, 16);
        proof {
            assert(t@.take(i + 1) =~= t@.take(i as int).push(t@[i as int]));
            lemma_entries_enc_snoc(t@.take(i as int), t@[i as int]);
            assert(out@ =~= le_bytes(t@.len(), 8) + entries_enc(t@.take(i + 1)));
        }
        i = i + 1;
    }
    proof {
        assert(t@.take(t@.len() as int) =~= t@);
    }
    out
}

/// Decodes storage bytes into a balance table; inverse of `encode_table`.
pub fn decode_table(s: &Vec<u8>) -> (r: Option<Vec<(AssetId, u128)>>)
    ensures
        match r {
            Some(t) => table_dec(s@) == Some(t@),
            None => table_dec(s@) is None,
        },
{
    let slen = s.len();
    if slen < 8 {
        return None;
    }
    let n128 = read_le(s, 0, 8);
    let body = slen - 8;
    if body % 33 != 0 || n128 != (body / 33) as u128 {
        proof {
            let n = le_val(s@.subrange(0, 8)) as int;
            assert(s@.len() != 8 + 33 * n) by (nonlinear_arith)
                requires
                    n == n128,
                    s@.len() == body + 8,
                    body % 33 != 0 || n128 != (body / 33) as u128,
                    0 <= body,
                    0 <= n,
            ;
        }
        return None;
    }
    let n = body / 33;
    proof {
        assert(33 * (n as int) == body as int) by (nonlinear_arith)
            requires
                body % 33 == 0,
                n == body / 33,
                0 <= body,
        ;
    }
    let mut out: Vec<(AssetId, u128)> = Vec::new();
    let mut i: usize = 0;
    while i < n
        invariant
            i <= n,
            slen == s@.len(),
            slen == 8 + 33 * n,
            out@.len() == i,
            forall|j: int| 0 <= j < i ==> entry_dec(entry_slice(s@, j)) == Some(out@[j]),
        decreases n - i,
    {
        let off = 8 + 33 * i;
        let e = read_entry(s, off);
        proof {
            assert(s@.subrange(off as int, off + 33) =~= entry_slice(s@, i as int));
        }
        match e {
            Some(entry) => {
                out.push(entry);
            },
            None => {
                return None;
            },
        }
        i = i + 1;
    }
    proof {
        let nn = le_val(s@.subrange(0, 8)) as int;
        assert(nn == n as int);
        assert(Seq::new(nn as nat, |j: int| entry_dec(entry_slice(s@, j)).unwrap()) =~= out@);
    }
    Some(out)
}

/// Encodes one 128-bit counter as its 16 little-endian bytes.
pub fn encode_u128(x: u128) -> (r: Vec<u8>)
    ensures
        r@ == le_bytes(x as nat, 16),
{
    proof {
        lemma_pow256_values();
    }
    let mut out: Vec<u8> = Vec::new();
    push_le(&mut out, x, 16);
    proof {
        assert(out@ =~= le_bytes(x as nat, 16));
    }
    out
}

/// Reads one 128-bit counter back from its 16 bytes.
pub fn decode_u128(bytes: &Vec<u8>) -> (r: u128)
    requires
        bytes@.len() == 16,
    ensures
        r as nat == le_val(bytes@),
{
    let r = read_le(bytes, 0, 16);
    proof {
        assert(bytes@.subrange(0, 16) =~= bytes@);
    }
    r
}

/// Byte layout of the replay cursor: four 8-byte fields. Always 32 bytes.
pub open spec fn info_enc(i: StateInfo) -> Seq<u8> {
    le_bytes(i.last_block as nat, 8) + le_bytes(i.worker_nonce as nat, 8) + le_bytes(
        i.stid as nat,
        8,
    ) + le_bytes(i.snapshot_id as nat, 8)
}

pub open spec fn info_dec(s: Seq<u8>) -> Option<StateInfo> {
    if s.len() == 32 {
        Some(
            StateInfo {
                last_block: le_val(s.subrange(0, 8)) as u64,
                worker_nonce: le_val(s.subrange(8, 16)) as u64,
                stid: le_val(s.subrange(16, 24)) as u64,
                snapshot_id: le_val(s.subrange(24, 32)) as u64,
            },
        )
    } else {
        None
    }
}

pub proof fn lemma_info_enc_len(i: StateInfo)
    ensures
        info_enc(i).len() == 32,
{
    lemma_le_bytes_len(i.last_block as nat, 8);
    lemma_le_bytes_len(i.worker_nonce as nat, 8);
    lemma_le_bytes_len(i.stid as nat, 8);
    lemma_le_bytes_len(i.snapshot_id as nat, 8);
}

pub proof fn lemma_info_roundtrip(i: StateInfo)
    ensures
        info_dec(info_enc(i)) == Some(i),
{
    lemma_info_enc_len(i);
    lemma_le_bytes_len(i.last_block as nat, 8);
    lemma_le_bytes_len(i.worker_nonce as nat, 8);
    lemma_le_bytes_len(i.stid as nat, 8);
    lemma_le_bytes_len(i.snapshot_id as nat, 8);
    let s = info_enc(i);
    assert(s.subrange(0, 8) =~= le_bytes(i.last_block as nat, 8));
    assert(s.subrange(8, 16) =~= le_bytes(i.worker_nonce as nat, 8));
    assert(s.subrange(16, 24) =~= le_bytes(i.stid as nat, 8));
    assert(s.subrange(24, 32) =~= le_bytes(i.snapshot_id as nat, 8));
    lemma_pow256_values();
    lemma_le_roundtrip(i.last_block as nat, 8);
    lemma_le_roundtrip(i.worker_nonce as nat, 8);
    lemma_le_roundtrip(i.stid as nat, 8);
    lemma_le_roundtrip(i.snapshot_id as nat, 8);
}

/// Encodes the replay cursor into its storage bytes.
pub fn encode_info(i: &StateInfo) -> (r: Vec<u8>)
    ensures
        r@ == info_enc(*i),
{
    proof {
        lemma_pow256_values();
    }
    let mut out: Vec<u8> = Vec::new();
    push_le(&mut out, i.last_block as u128, 8);
    push_le(&mut out, i.worker_nonce as u128, 8);
    push_le(&mut out, i.stid as u128, 8);
    push_le(&mut out, i.snapshot_id as u128, 8);
    proof {
        assert(out@ =~= info_enc(*i));
    }
    out
}

/// Decodes the replay cursor from storage bytes; inverse of `encode_info`.
pub fn decode_info(s: &Vec<u8>) -> (r: Option<StateInfo>)
    ensures
        r == info_dec(s@),
{
    if s.len() != 32 {
        return None;
    }
    proof {
        lemma_le_val_bound(s@.subrange(0, 8));
        lemma_le_val_bound(s@.subrange(8, 16));
        lemma_le_val_bound(s@.subrange(16, 24));
        lemma_le_val_bound(s@.subrange(24, 32));
        lemma_pow256_values();
    }
    let last_block = read_le(s, 0, 8) as u64;
    let worker_nonce = read_le(s, 8, 8) as u64;
    let stid = read_le(s, 16, 8) as u64;
    let snapshot_id = read_le(s, 24, 8) as u64;
    Some(StateInfo { last_block, worker_nonce, stid, snapshot_id })
}

/// The reserved store key holding an account's balance table.
pub open spec fn acct_key(a: u64) -> Seq<u8> {
    seq![1u8] + le_bytes(a as nat, 8)
}

/// The reserved store key holding the replay cursor.
pub open spec fn state_info_key() -> Seq<u8> {
    seq![2u8]
}

/// The reserved store key of one liquidity-volume accumulator cell:
/// epoch, market assets, metric tag, main account.
pub open spec fn lmp_key(epoch: u32, base: AssetId, quote: AssetId, metric: u8, main: u64) -> Seq<
    u8,
> {
    seq![3u8] + le_bytes(epoch as nat, 4) + asset_enc(base) + asset_enc(quote) + seq![metric]
        + le_bytes(main as nat, 8)
}

/// Recognizes keys of the balance-table namespace.
pub open spec fn is_acct_key(k: Seq<u8>) -> bool {
    k.len() == 9 && k[0] == 1
}

/// Recognizes keys of the accumulator namespace.
pub open spec fn is_lmp_key(k: Seq<u8>) -> bool {
    k.len() == 48 && k[0] == 3
}

/// The three reserved key namespaces never collide: each kind is told apart
/// by its first byte and fixed length.
pub proof fn lemma_key_shapes(a: u64, epoch: u32, base: AssetId, quote: AssetId, metric: u8, main: u64)
    ensures
        is_acct_key(acct_key(a)),
        !is_lmp_key(acct_key(a)),
        acct_key(a) != state_info_key(),
        is_lmp_key(lmp_key(epoch, base, quote, metric, main)),
        !is_acct_key(lmp_key(epoch, base, quote, metric, main)),
        lmp_key(epoch, base, quote, metric, main) != state_info_key(),
        !is_acct_key(state_info_key()),
        !is_lmp_key(state_info_key()),
{
    lemma_le_bytes_len(a as nat, 8);
    lemma_le_bytes_len(epoch as nat, 4);
    lemma_asset_enc_len(base);
    lemma_asset_enc_len(quote);
    lemma_le_bytes_len(main as nat, 8);
    assert(acct_key(a)[0] == 1);
    assert(lmp_key(epoch, base, quote, metric, main)[0] == 3);
    assert(state_info_key()[0] == 2);
}

pub proof fn lemma_acct_key_injective(a: u64, b: u64)
    requires
        acct_key(a) == acct_key(b),
    ensures
        a == b,
{
    lemma_le_bytes_len(a as nat, 8);
    lemma_le_bytes_len(b as nat, 8);
    assert(acct_key(a).skip(1) =~= le_bytes(a as nat, 8));
    assert(acct_key(b).skip(1) =~= le_bytes(b as nat, 8));
    lemma_pow256_values();
    lemma_le_bytes_injective(a as nat, b as nat, 8);
}

/// Builds the balance-table key of an account.
pub fn make_acct_key(a: u64) -> (r: Vec<u8>)
    ensures
        r@ == acct_key(a),
{
    proof {
        lemma_pow256_values();
    }
    let mut out: Vec<u8> = Vec::new();
    out.push(1u8);
    push_le(&mut out, a as u128, 8);
    proof {
        assert(out@ =~= acct_key(a));
    }
    out
}

/// Builds the replay-cursor key.
pub fn make_state_info_key() -> (r: Vec<u8>)
    ensures
        r@ == state_info_key(),
{
    let mut out: Vec<u8> = Vec::new();
    out.push(2u8);
    proof {
        assert(out@ =~= state_info_key());
    }
    out
}

/// Builds the key of one accumulator cell.
pub fn make_lmp_key(epoch: u32, base: AssetId, quote: AssetId, metric: u8, main: u64) -> (r: Vec<
    u8,
>)
    ensures
        r@ == lmp_key(epoch, base, quote, metric, main),
{
    proof {
        lemma_pow256_values();
    }
    let mut out: Vec<u8> = Vec::new();
    out.push(3u8);
    push_le(&mut out, epoch as u128, 4);
    push_asset(&mut out, base);
    push_asset(&mut out, quote);
    out.push(metric);
    push_le(&mut out, main as u128, 8);
    proof {
        assert(out@ =~= lmp_key(epoch, base, quote, metric, main));
    }
    out
}

/// The message bytes a withdrawal request's signature is checked over.
pub open spec fn withdraw_payload_enc(r: WithdrawalRequest) -> Seq<u8> {
    le_bytes(r.main as nat, 8) + le_bytes(r.proxy as nat, 8) + asset_enc(r.asset) + le_bytes(
        r.amount as nat,
        16,
    ) + le_bytes(r.fees as nat, 16)
}

/// Builds the signing payload of a withdrawal request.
pub fn encode_withdraw_payload(r: &WithdrawalRequest) -> (out: Vec<u8>)
    ensures
        out@ == withdraw_payload_enc(*r),
{
    proof {
        lemma_pow256_values();
    }
    let mut out: Vec<u8> = Vec::new();
    push_le(&mut out, r.main as u128, 8);
    push_le(&mut out, r.proxy as u128, 8);
    push_asset(&mut out, r.asset);
    push_le(&mut out, r.amount, 16);
    push_le(&mut out, r.fees, 16);
    proof {
        assert(out@ =~= withdraw_payload_enc(*r));
    }
    out
}

/// Byte layout of one settled withdrawal record. Always 65 bytes.
pub open spec fn withdrawal_enc(w: Withdrawal) -> Seq<u8> {
    le_bytes(w.main_account as nat, 8) + asset_enc(w.asset) + le_bytes(w.amount as nat, 16)
        + le_bytes(w.fees as nat, 16) + le_bytes(w.stid as nat, 8)
}

/// The concatenated encodings of a withdrawal list.
pub open spec fn withdrawals_enc(ws: Seq<Withdrawal>) -> Seq<u8>
    decreases ws.len(),
{
    if ws.len() == 0 {
        Seq::empty()
    } else {
        withdrawal_enc(ws[0]) + withdrawals_enc(ws.skip(1))
    }
}

pub proof fn lemma_withdrawals_enc_snoc(ws: Seq<Withdrawal>, w: Withdrawal)
    ensures
        withdrawals_enc(ws.push(w)) == withdrawals_enc(ws) + withdrawal_enc(w),
    decreases ws.len(),
{
    if ws.len() == 0 {
        assert(ws.push(w)[0] == w);
        assert(ws.push(w).skip(1) =~= Seq::<Withdrawal>::empty());
        assert(withdrawals_enc(ws.push(w)) == withdrawal_enc(w) + withdrawals_enc(
            Seq::<Withdrawal>::empty(),
        ));
        assert(withdrawals_enc(ws.push(w)) =~= withdrawals_enc(ws) + withdrawal_enc(w));
    } else {
        assert(ws.push(w).skip(1) =~= ws.skip(1).push(w));
        lemma_withdrawals_enc_snoc(ws.skip(1), w);
        assert(ws.push(w)[0] == ws[0]);
        assert(withdrawals_enc(ws.push(w)) == withdrawal_enc(ws[0]) + withdrawals_enc(
            ws.skip(1).push(w),
        ));
        assert(withdrawals_enc(ws.push(w)) =~= withdrawals_enc(ws) + withdrawal_enc(w));
    }
}

/// Byte layout of a snapshot summary: the five scalar fields, the raw state
/// hash, then a counted withdrawal list. This is the message the validator
/// key signs.
pub open spec fn summary_enc(s: SnapshotSummary) -> Seq<u8> {
    le_bytes(s.validator_set_id as nat, 8) + le_bytes(s.snapshot_id as nat, 8) + s.state_hash@
        + le_bytes(s.state_change_id as nat, 8) + le_bytes(s.last_processed_blk as nat, 8)
        + le_bytes(s.withdrawals@.len(), 8) + withdrawals_enc(s.withdrawals@)
}

/// Appends the encoding of one withdrawal record.
fn push_withdrawal(out: &mut Vec<u8>, w: &Withdrawal)
    ensures
        final(out)@ == old(out)@ + withdrawal_enc(*w),
{
    proof {
        lemma_pow256_values();
    }
    push_le(out, w.main_account as u128, 8);
    push_asset(out, w.asset);
    push_le(out, w.amount, 16);
    push_le(out, w.fees, 16);
    push_le(out, w.stid as u128, 8);
    proof {
        assert(out@ =~= old(out)@ + withdrawal_enc(*w));
    }
}

/// Encodes a snapshot summary into the bytes a validator signs.
pub fn encode_summary(s: &SnapshotSummary) -> (out: Vec<u8>)
    ensures
        out@ == summary_enc(*s),
{
    proof {
        lemma_pow256_values();
    }
    let mut out: Vec<u8> = Vec::new();
    push_le(&mut out, s.validator_set_id as u128, 8);
    push_le(&mut out, s.snapshot_id as u128, 8);
    let mut h: usize = 0;
    while h < 32
        invariant
            h <= 32,
            out@ == le_bytes(s.validator_set_id as nat, 8) + le_bytes(s.snapshot_id as nat, 8)
                + s.state_hash@.take(h as int),
        decreases 32 - h,
    {
        out.push(s.state_hash[h]);
        proof {
            assert(s.state_hash@.take(h + 1) =~= s.state_hash@.take(h as int).push(
                s.state_hash@[h as int],
            ));
            assert(out@ =~= le_bytes(s.validator_set_id as nat, 8) + le_bytes(
                s.snapshot_id as nat,
                8,
            ) + s.state_hash@.take(h + 1));
        }
        h = h + 1;
    }
    proof {
        assert(s.state_hash@.take(32) =~= s.state_hash@);
    }
    push_le(&mut out, s.state_change_id as u128, 8);
    push_le(&mut out, s.last_processed_blk as u128, 8);
    push_le(&mut out, s.withdrawals.len() as u128, 8);
    let ghost head = out@;
    let mut i: usize = 0;
    proof {
        assert(s.withdrawals@.take(0) =~= Seq::<Withdrawal>::empty());
        assert(out@ =~= head + withdrawals_enc(s.withdrawals@.take(0)));
    }
    while i < s.withdrawals.len()
        invariant
            i <= s.withdrawals@.len(),
            out@ == head + withdrawals_enc(s.withdrawals@.take(i as int)),
        decreases s.withdrawals@.len() - i,
    {
        push_withdrawal(&mut out, &s.withdrawals[i]);
        proof {
            assert(s.withdrawals@.take(i + 1) =~= s.withdrawals@.take(i as int).push(
                s.withdrawals@[i as int],
            ));
            lemma_withdrawals_enc_snoc(s.withdrawals@.take(i as int), s.withdrawals@[i as int]);
            assert(out@ =~= head + withdrawals_enc(s.withdrawals@.take(i + 1)));
        }
        i = i + 1;
    }
    proof {
        assert(s.withdrawals@.take(s.withdrawals@.len() as int) =~= s.withdrawals@);
        assert(out@ =~= summary_enc(*s));
    }
    out
}

/// A length-prefixed byte string, the unit of the store's root serialization.
pub open spec fn bytes_enc(b: Seq<u8>) -> Seq<u8> {
    le_bytes(b.len(), 8) + b
}

/// Byte layout of one committed key/value pair.
pub open spec fn kv_enc(e: (Seq<u8>, Seq<u8>)) -> Seq<u8> {
    bytes_enc(e.0) + bytes_enc(e.1)
}

/// The serialization of the committed entry list that the state root hashes.
pub open spec fn kvs_enc(s: Seq<(Seq<u8>, Seq<u8>)>) -> Seq<u8>
    decreases s.len(),
{
    if s.len() == 0 {
        Seq::empty()
    } else {
        kv_enc(s[0]) + kvs_enc(s.skip(1))
    }
}

pub proof fn lemma_kvs_enc_snoc(s: Seq<(Seq<u8>, Seq<u8>)>, e: (Seq<u8>, Seq<u8>))
    ensures
        kvs_enc(s.push(e)) == kvs_enc(s) + kv_enc(e),
    decreases s.len(),
{
    if s.len() == 0 {
        assert(s.push(e)[0] == e);
        assert(s.push(e).skip(1) =~= Seq::<(Seq<u8>, Seq<u8>)>::empty());
        assert(kvs_enc(s.push(e)) == kv_enc(e) + kvs_enc(Seq::<(Seq<u8>, Seq<u8>)>::empty()));
        assert(kvs_enc(s.push(e)) =~= kvs_enc(s) + kv_enc(e));
    } else {
        assert(s.push(e).skip(1) =~= s.skip(1).push(e));
        lemma_kvs_enc_snoc(s.skip(1), e);
        assert(s.push(e)[0] == s[0]);
        assert(kvs_enc(s.push(e)) == kv_enc(s[0]) + kvs_enc(s.skip(1).push(e)));
        assert(kvs_enc(s.push(e)) =~= kvs_enc(s) + kv_enc(e));
    }
}

/// Appends a length-prefixed byte string.
fn push_bytes(out: &mut Vec<u8>, b: &Vec<u8>)
    ensures
        final(out)@ == old(out)@ + bytes_enc(b@),
{
    proof {
        lemma_pow256_values();
    }
    push_le(out, b.len() as u128, 8);
    let ghost mid = out@;
    let mut i: usize = 0;
    proof {
        assert(out@ =~= mid + b@.take(0));
    }
    while i < b.len()
        invariant
            i <= b@.len(),
            out@ == mid + b@.take(i as int),
        decreases b@.len() - i,
    {
        out.push(b[i]);
        proof {
            assert(b@.take(i + 1) =~= b@.take(i as int).push(b@[i as int]));
            assert(out@ =~= mid + b@.take(i + 1));
        }
        i = i + 1;
    }
    proof {
        assert(b@.take(b@.len() as int) =~= b@);
        assert(out@ =~= old(out)@ + bytes_enc(b@));
    }
}

/// The spec-level view of a committed entry list: each pair as raw byte
/// sequences.
pub open spec fn kvs_view(v: Seq<(Vec<u8>, Vec<u8>)>) -> Seq<(Seq<u8>, Seq<u8>)> {
    v.map_values(|p: (Vec<u8>, Vec<u8>)| (p.0@, p.1@))
}

/// Serializes the committed entry list for hashing.
pub fn encode_kvs(v: &Vec<(Vec<u8>, Vec<u8>)>) -> (out: Vec<u8>)
    ensures
        out@ == kvs_enc(kvs_view(v@)),
{
    let mut out: Vec<u8> = Vec::new();
    let mut i: usize = 0;
    proof {
        assert(kvs_view(v@).take(0) =~= Seq::<(Seq<u8>, Seq<u8>)>::empty());
        assert(out@ =~= kvs_enc(kvs_view(v@).take(0)));
    }
    while i < v.len()
        invariant
            i <= v@.len(),
            out@ == kvs_enc(kvs_view(v@).take(i as int)),
        decreases v@.len() - i,
    {
        let ghost pre = out@;
        push_bytes(&mut out, &v[i].0);
        push_bytes(&mut out, &v[i].1);
        proof {
            assert(out@ =~= pre + kv_enc(kvs_view(v@)[i as int]));
            assert(kvs_view(v@).take(i + 1) =~= kvs_view(v@).take(i as int).push(
                kvs_view(v@)[i as int],
            ));
            lemma_kvs_enc_snoc(kvs_view(v@).take(i as int), kvs_view(v@)[i as int]);
            assert(out@ =~= kvs_enc(kvs_view(v@).take(i + 1)));
        }
        i = i + 1;
    }
    proof {
        assert(kvs_view(v@).take(kvs_view(v@).len() as int) =~= kvs_view(v@));
    }
    out
}

} // verus!
