//! The window over the latest changes.
use animus_control::{DeltaRing, KeyWrite};

fn put(key: &[u8], value: &[u8]) -> KeyWrite {
    KeyWrite::Put(key.to_vec(), value.to_vec())
}

#[test]
fn empty_ring_answers_only_the_trivial_no_op_case() {
    let ring = DeltaRing::default();
    assert_eq!(ring.writes_since(5, 5), Some(Vec::new()));
    assert_eq!(ring.writes_since(0, 3), None);
}

#[test]
fn contiguous_range_is_covered_and_flattened_in_order() {
    let mut ring = DeltaRing::default();
    ring.push(1, vec![put(b"a", b"1")]);
    ring.push(2, vec![put(b"b", b"2"), KeyWrite::Delete(b"a".to_vec())]);
    ring.push(3, vec![put(b"c", b"3")]);

    assert_eq!(
        ring.writes_since(0, 3),
        Some(vec![
            put(b"a", b"1"),
            put(b"b", b"2"),
            KeyWrite::Delete(b"a".to_vec()),
            put(b"c", b"3"),
        ])
    );

    assert_eq!(
        ring.writes_since(1, 2),
        Some(vec![put(b"b", b"2"), KeyWrite::Delete(b"a".to_vec())])
    );

    assert_eq!(ring.writes_since(3, 3), Some(Vec::new()));
}

#[test]
fn upto_ahead_of_the_ring_falls_back() {
    let mut ring = DeltaRing::default();
    ring.push(1, vec![put(b"a", b"1")]);

    assert_eq!(ring.writes_since(0, 5), None);
}

#[test]
fn entry_count_eviction_produces_a_gap_fallback() {
    let mut ring = DeltaRing::with_bounds(3, usize::MAX);
    for i in 1..=5u64 {
        ring.push(i, vec![put(b"k", &i.to_be_bytes())]);
    }
    assert_eq!(ring.len(), 3, "only the newest 3 entries are retained");

    assert_eq!(ring.writes_since(1, 5), None);

    assert_eq!(
        ring.writes_since(2, 5),
        Some(vec![
            put(b"k", &3u64.to_be_bytes()),
            put(b"k", &4u64.to_be_bytes()),
            put(b"k", &5u64.to_be_bytes()),
        ])
    );
}

#[test]
fn byte_bound_eviction_from_one_huge_entry() {
    let mut ring = DeltaRing::with_bounds(1024, 100);
    ring.push(1, vec![put(b"a", b"small")]);
    ring.push(2, vec![put(b"b", b"also-small")]);
    assert_eq!(ring.len(), 2);

    let huge_value = vec![0u8; 200];
    ring.push(3, vec![KeyWrite::Put(b"big".to_vec(), huge_value.clone())]);
    assert_eq!(
        ring.len(),
        1,
        "the huge entry must evict everything smaller that preceded it"
    );
    assert!(
        ring.bytes() > 100,
        "the retained entry alone exceeds the byte bound"
    );

    assert_eq!(ring.writes_since(1, 3), None);

    assert_eq!(
        ring.writes_since(2, 3),
        Some(vec![KeyWrite::Put(b"big".to_vec(), huge_value.clone())]),
        "last_seen+1 landing exactly on the ring's front is contiguous, not a gap"
    );
    assert_eq!(
        ring.writes_since(3, 3),
        Some(Vec::new()),
        "nothing new past the ring's own head is always trivially covered"
    );
}

#[test]
fn clear_resets_the_ring_to_empty() {
    let mut ring = DeltaRing::default();
    ring.push(1, vec![put(b"a", b"1")]);
    ring.push(2, vec![put(b"b", b"2")]);
    assert_eq!(
        ring.writes_since(0, 2),
        Some(vec![put(b"a", b"1"), put(b"b", b"2")])
    );

    ring.clear();
    assert_eq!(ring.len(), 0);
    assert_eq!(ring.bytes(), 0);

    assert_eq!(ring.writes_since(0, 2), None);

    ring.push(3, vec![put(b"c", b"3")]);
    assert_eq!(ring.writes_since(2, 3), Some(vec![put(b"c", b"3")]));
}
