use hytch::ring_buffer::RingBuffer;
use std::collections::VecDeque;

#[test]
fn starts_empty() {
    let rb = RingBuffer::new(8);
    assert_eq!(rb.len(), 0);
    assert!(rb.is_empty());
    assert_eq!(rb.snapshot(), Vec::<u8>::new());
}

#[test]
fn append_under_capacity_keeps_everything_in_order() {
    let mut rb = RingBuffer::new(8);
    rb.append(b"AB");
    rb.append(b"CD");
    assert_eq!(rb.snapshot(), b"ABCD");
    assert_eq!(rb.len(), 4);
}

#[test]
fn append_exactly_filling_capacity_keeps_everything() {
    let mut rb = RingBuffer::new(4);
    rb.append(b"ABCD");
    assert_eq!(rb.snapshot(), b"ABCD");
    assert_eq!(rb.len(), 4);
}

#[test]
fn append_past_capacity_overwrites_oldest_bytes() {
    let mut rb = RingBuffer::new(4);
    rb.append(b"AB");
    rb.append(b"CDE");
    assert_eq!(rb.snapshot(), b"BCDE");
    assert_eq!(rb.len(), 4);
}

#[test]
fn append_wraps_correctly_across_multiple_overflowing_writes() {
    let mut rb = RingBuffer::new(4);
    rb.append(b"AB");
    rb.append(b"CDE");
    rb.append(b"F");
    assert_eq!(rb.snapshot(), b"CDEF");
}

#[test]
fn single_append_longer_than_capacity_keeps_only_the_tail() {
    let mut rb = RingBuffer::new(4);
    rb.append(b"ABCDEFGH");
    assert_eq!(rb.snapshot(), b"EFGH");
    assert_eq!(rb.len(), 4);
}

#[test]
fn appending_empty_slice_is_a_no_op() {
    let mut rb = RingBuffer::new(4);
    rb.append(b"AB");
    rb.append(b"");
    assert_eq!(rb.snapshot(), b"AB");
}

#[test]
fn many_small_appends_match_expected_tail() {
    let mut rb = RingBuffer::new(8);
    for byte in b'a'..=b'z' {
        rb.append(&[byte]);
    }
    assert_eq!(rb.snapshot(), b"stuvwxyz");
}

#[test]
fn matches_vecdeque_reference_model() {
    const CAP: usize = 16;
    let mut seed: u32 = 12345;
    for _ in 0..200 {
        let mut rb = RingBuffer::new(CAP);
        let mut reference: VecDeque<u8> = VecDeque::new();
        for _ in 0..20 {
            seed = seed.wrapping_mul(1664525).wrapping_add(1013904223);
            let len = (seed >> 16) as usize % 20;
            let chunk: Vec<u8> = (0..len).map(|i| (seed >> 8) as u8 ^ i as u8).collect();
            rb.append(&chunk);
            for &b in &chunk {
                if reference.len() == CAP {
                    reference.pop_front();
                }
                reference.push_back(b);
            }
        }
        let expected: Vec<u8> = reference.into_iter().collect();
        assert_eq!(rb.snapshot(), expected);
    }
}

#[test]
fn capacity_must_be_a_power_of_two() {
    assert!(!RingBuffer::valid_capacity(0));
    assert!(RingBuffer::valid_capacity(1));
    assert!(RingBuffer::valid_capacity(2));
    assert!(!RingBuffer::valid_capacity(6));
    assert!(RingBuffer::valid_capacity(131072));
    assert!(!RingBuffer::valid_capacity(131073));
    assert!(!RingBuffer::valid_capacity(usize::MAX));
    assert!(!RingBuffer::valid_capacity(usize::MAX / 2 + 1));
}

#[test]
fn capacity_never_changes() {
    let mut rb = RingBuffer::new(1);
    assert_eq!(rb.capacity(), 1);
    rb.append(b"xyz");
    assert_eq!(rb.capacity(), 1);
    assert_eq!(rb.snapshot(), b"z");
    assert!(!rb.is_empty());
}

#[test]
fn chunking_does_not_show() {
    let data = b"the quick brown fox jumps over the lazy dog";
    let mut whole = RingBuffer::new(16);
    whole.append(data);
    let mut pieces = RingBuffer::new(16);
    for piece in data.chunks(5) {
        pieces.append(piece);
    }
    assert_eq!(whole.snapshot(), pieces.snapshot());
    assert_eq!(whole.snapshot(), b"ver the lazy dog");
}
