use ocex_replay::store::OffchainState;

fn hex_to_bytes(s: &str) -> Vec<u8> {
    let chars: Vec<u8> = s.bytes().collect();
    let mut out = Vec::new();
    let mut i = 0;
    while i + 1 < chars.len() {
        let hi = (chars[i] as char).to_digit(16).unwrap() as u8;
        let lo = (chars[i + 1] as char).to_digit(16).unwrap() as u8;
        out.push(hi * 16 + lo);
        i += 2;
    }
    out
}

#[test]
fn empty_store_root_is_blake2_of_empty_input() {
    // The canonical serialization of an empty store is the empty byte
    // string, whose blake2b-256 digest is a published test vector.
    let mut st = OffchainState::new();
    let root = st.commit();
    let expected = hex_to_bytes("0e5751c026e543b2e8ab2eb06099daa1d1e5df47778f7787faab45cdf12fe3a8");
    assert_eq!(root.to_vec(), expected);
}

#[test]
fn nonempty_root_hashes_canonical_serialization() {
    // One entry (key [1], value [9]) serializes as two length-prefixed byte
    // strings; the root must be the blake2b-256 digest of those bytes, not
    // the bytes themselves.
    let mut st = OffchainState::new();
    st.insert(vec![1u8], vec![9u8]);
    let root = st.commit();
    let mut canonical: Vec<u8> = Vec::new();
    canonical.extend_from_slice(&1u64.to_le_bytes());
    canonical.push(1u8);
    canonical.extend_from_slice(&1u64.to_le_bytes());
    canonical.push(9u8);
    let expected = <sp_core::Blake2Hasher as sp_core::Hasher>::hash(&canonical);
    assert_eq!(root, expected.to_fixed_bytes());
    assert_ne!(root.to_vec(), canonical);
}

#[test]
fn get_returns_latest_pending_write() {
    let mut st = OffchainState::new();
    st.insert(vec![1, 2], vec![10]);
    st.insert(vec![1, 2], vec![20]);
    assert_eq!(st.get(&vec![1, 2]), Some(&vec![20u8]));
    assert_eq!(st.get(&vec![9, 9]), None);
    // Before the commit, nothing is in the committed arena.
    assert_eq!(st.committed_get(&vec![1, 2]), None);
    st.commit();
    assert_eq!(st.committed_get(&vec![1, 2]), Some(&vec![20u8]));
}

#[test]
fn root_is_order_insensitive_over_the_contents() {
    // Identical key/value sets committed in different write orders produce
    // the identical content-derived root.
    let mut a = OffchainState::new();
    a.insert(vec![1], vec![10]);
    a.insert(vec![2], vec![20]);
    let root_a = a.commit();

    let mut b = OffchainState::new();
    b.insert(vec![2], vec![20]);
    b.insert(vec![1], vec![10]);
    let root_b = b.commit();
    assert_eq!(root_a, root_b);

    let mut c = OffchainState::new();
    c.insert(vec![1], vec![10]);
    let root_c = c.commit();
    assert_ne!(root_a, root_c);
}

#[test]
fn commit_in_steps_matches_commit_at_once() {
    let mut a = OffchainState::new();
    a.insert(vec![1], vec![10]);
    a.commit();
    a.insert(vec![2], vec![20]);
    let root_a = a.commit();

    let mut b = OffchainState::new();
    b.insert(vec![1], vec![10]);
    b.insert(vec![2], vec![20]);
    let root_b = b.commit();
    assert_eq!(root_a, root_b);
}

#[test]
fn discard_overlay_drops_pending_writes() {
    let mut st = OffchainState::new();
    st.insert(vec![1], vec![10]);
    st.commit();
    st.insert(vec![1], vec![99]);
    st.insert(vec![2], vec![20]);
    st.discard_overlay();
    assert_eq!(st.get(&vec![1]), Some(&vec![10u8]));
    assert_eq!(st.get(&vec![2]), None);
}
