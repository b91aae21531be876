use preduce::range_order::RemovalOrder;
use preduce::ranges::RemoveRanges;
use preduce::script::Reducer;
use preduce::script_ranges::RemoveRangesReducer;
use std::marker::PhantomData;
use std::ops::Range;

#[derive(Clone, Debug, PartialEq, Eq)]
struct TestRanges;

impl RemoveRanges for TestRanges {
    type Order = RemovalOrder;

    fn remove_ranges(_: &[u8]) -> Vec<Range<u64>> {
        vec![0..10, 3..5, 3..5, 5..16, 7..11]
    }
}

fn state(ranges: Vec<Range<u64>>, chunk_size: usize, index: usize) -> RemoveRangesReducer<TestRanges> {
    RemoveRangesReducer { remove_ranges: PhantomData, ranges, chunk_size, index }
}

#[test]
fn lib_remove_ranges_next() {
    let mut reducer = RemoveRangesReducer::<TestRanges>::new(b"");
    assert_eq!(reducer, state(vec![5..16, 0..10, 7..11, 3..5], 4, 0));

    for i in 0..3 {
        reducer = reducer.next().expect("is some on next");
        assert_eq!(reducer, state(vec![5..16, 0..10, 7..11, 3..5], 2, i));
    }

    for i in 0..4 {
        reducer = reducer.next().expect("is some on next");
        assert_eq!(reducer, state(vec![5..16, 0..10, 7..11, 3..5], 1, i));
    }

    assert!(reducer.next().is_none());
}

fn next_on_interesting(ranges: Vec<Range<u64>>, chunk_size: usize, index: usize) -> Option<RemoveRangesReducer<TestRanges>> {
    // The new seed's size plays no part here.
    state(ranges, chunk_size, index).next_on_interesting(0)
}

#[test]
fn lib_remove_ranges_next_on_interesting() {
    //                      [--------- s --------)
    // [------- r ----------)
    let next = next_on_interesting(vec![10..30, 0..10], 1, 0).expect("next_on_interesting should be some");
    assert_eq!(next, state(vec![0..10], 1, 0));

    // [------ s -----)
    //                [------- r -------)
    let next = next_on_interesting(vec![0..10, 10..15], 1, 0).expect("next_on_interesting should be some");
    assert_eq!(next, state(vec![0..5], 1, 0));

    //      [------ s -----)
    // [----------- r -----------)
    let next = next_on_interesting(vec![5..10, 0..15], 1, 0).expect("next_on_interesting should be some");
    assert_eq!(next, state(vec![0..10], 1, 0));

    // [----------- s -----------)
    //      [------ r -----)
    assert!(next_on_interesting(vec![0..10, 5..7], 1, 0).is_none());

    // [--------- s ---------)
    //                 [---------- r ---------)
    assert!(next_on_interesting(vec![0..10, 8..12], 1, 0).is_none());

    //                 [--------- s ---------)
    // [---------- r ---------)
    assert!(next_on_interesting(vec![8..15, 5..10], 1, 0).is_none());

    // Removing multiple ranges from the middle of the set.
    let next = next_on_interesting(vec![30..41, 20..30, 10..20, 5..10, 0..3, 3..5], 2, 2)
        .expect("next_on_interesting should be some");
    assert_eq!(next, state(vec![15..26, 5..15, 0..3, 3..5], 2, 2));
}

#[test]
fn lib_remove_ranges_shifting_stops_at_the_first_removed_range_after() {
    // The removed ranges are taken in window order, and the first one that
    // comes after a range ends its shifting: 40..50 comes first, so neither
    // range sees 0..5.
    let next = next_on_interesting(vec![40..50, 0..5, 20..25, 30..31], 2, 0)
        .expect("next_on_interesting should be some");
    assert_eq!(next, state(vec![20..25, 30..31], 2, 0));
    // In the other order, they do.
    let next = next_on_interesting(vec![0..5, 40..50, 20..25, 30..31], 2, 0)
        .expect("next_on_interesting should be some");
    assert_eq!(next, state(vec![15..20, 25..26], 2, 0));
}

#[test]
fn lib_remove_ranges_reduce_removes_every_byte_of_the_window() {
    let seed = b"0123456789abcdef";
    assert_eq!(state(vec![2..4, 8..10], 2, 0).reduce(seed), b"014567abcdef".to_vec());
    // Nested ranges: every byte of either range is removed.
    assert_eq!(state(vec![0..10, 3..5], 2, 0).reduce(seed), b"abcdef".to_vec());
    assert_eq!(state(vec![0..10, 3..5], 1, 1).reduce(seed), b"01256789abcdef".to_vec());
    assert_eq!(state(vec![2..6, 3..5], 2, 0).reduce(b"abcdefghij"), b"abghij".to_vec());
}
