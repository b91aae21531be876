use preduce::range_order::{sort_ranges_by, RangeOrder, RemovalOrder, StartOrder};
use std::cmp::Ordering;
use preduce::ranges::{remove_ranges_from, RemoveRanges, RemoveRangesReducer};
use preduce::script::Reducer;
use std::marker::PhantomData;
use std::ops::Range;

#[derive(Clone, Debug, PartialEq, Eq)]
struct TestRanges;

impl RemoveRanges for TestRanges {
    type Order = RemovalOrder;

    fn remove_ranges(_: &[u8]) -> Vec<Range<u64>> {
        vec![0..10, 3..5, 3..5, 5..16, 7..11]
    }
}

fn state(ranges: Vec<Range<u64>>, chunk_size: usize, index: usize) -> RemoveRangesReducer<TestRanges> {
    RemoveRangesReducer { remove_ranges: PhantomData, ranges, chunk_size, index }
}

#[test]
fn remove_ranges_next() {
    let mut reducer = RemoveRangesReducer::<TestRanges>::new(b"");
    assert_eq!(reducer, state(vec![5..16, 0..10, 7..11, 3..5], 4, 0));

    for i in 0..3 {
        reducer = reducer.next().expect("is some on next");
        assert_eq!(reducer, state(vec![5..16, 0..10, 7..11, 3..5], 2, i));
    }

    for i in 0..4 {
        reducer = reducer.next().expect("is some on next");
        assert_eq!(reducer, state(vec![5..16, 0..10, 7..11, 3..5], 1, i));
    }

    assert!(reducer.next().is_none());
}

/// The size of the new seed in the cases below: big enough that only the
/// last case's far away range is past its end.
const NEW_SEED_LEN: u64 = 19343;

fn next_on_interesting(ranges: Vec<Range<u64>>, chunk_size: usize, index: usize) -> Option<RemoveRangesReducer<TestRanges>> {
    state(ranges, chunk_size, index).next_on_interesting(NEW_SEED_LEN)
}

#[test]
fn remove_ranges_next_on_interesting() {
    //                      [--------- s --------)
    // [------- r ----------)
    let next = next_on_interesting(vec![10..30, 0..10], 1, 0).expect("next_on_interesting should be some");
    assert_eq!(next, state(vec![0..10], 1, 0));

    // [------ s -----)
    //                [------- r -------)
    let next = next_on_interesting(vec![0..10, 10..15], 1, 0).expect("next_on_interesting should be some");
    assert_eq!(next, state(vec![0..5], 1, 0));

    //      [------ s -----)
    // [----------- r -----------)
    let next = next_on_interesting(vec![5..10, 0..15], 1, 0).expect("next_on_interesting should be some");
    assert_eq!(next, state(vec![0..10], 1, 0));

    // [----------- s -----------)
    //      [------ r -----)
    assert!(next_on_interesting(vec![0..10, 5..7], 1, 0).is_none());

    // [--------- s ---------)
    //                 [---------- r ---------)
    let next = next_on_interesting(vec![0..10, 8..12], 1, 0).expect("next_on_interesting should be some");
    assert_eq!(next, state(vec![0..2], 1, 0));

    //                 [--------- s ---------)
    // [---------- r ---------)
    let next = next_on_interesting(vec![8..15, 5..10], 1, 0).expect("next_on_interesting should be some");
    assert_eq!(next, state(vec![5..8], 1, 0));

    // Removing multiple ranges from the middle of the set.
    let next = next_on_interesting(vec![30..41, 20..30, 10..20, 5..10, 0..3, 3..5], 2, 2)
        .expect("next_on_interesting should be some");
    assert_eq!(next, state(vec![15..26, 5..15, 0..3, 3..5], 2, 2));

    // [---- s ----)
    //             [----- s' -----)
    // [------------ r -----------)
    let next = next_on_interesting(vec![100..200, 0..20, 10..20, 0..10], 2, 2)
        .expect("next_on_interesting should be some");
    assert_eq!(next, state(vec![80..180], 1, 0));

    // Ranges beyond the new seed's length are dropped.
    let next = next_on_interesting(vec![10..20, 0..10, 8_888_888_888..9_999_999_999], 1, 0)
        .expect("next_on_interesting should be some");
    assert_eq!(next, state(vec![0..10], 1, 0));

    // [---- s ----)
    //          [---- s' ----)
    //                   [----- r -----)
    let next = next_on_interesting(vec![0..10, 5..20, 15..40], 2, 0).expect("next_on_interesting should be some");
    assert_eq!(next, state(vec![0..20], 1, 0));
}

#[test]
fn remove_ranges_next_on_interesting_without_ranges_left() {
    // Removing every range leaves nothing to reduce.
    assert!(next_on_interesting(vec![0..10, 10..15], 2, 0).is_none());
    // An empty state has nothing to reduce either.
    assert!(next_on_interesting(vec![], 0, 0).is_none());
}

#[test]
fn remove_ranges_fast_forward_is_repeated_next() {
    let reducer = RemoveRangesReducer::<TestRanges>::new(b"");
    let mut stepped = reducer.clone();
    for _ in 0..5 {
        stepped = stepped.next().unwrap();
    }
    assert_eq!(reducer.fast_forward(5), Some(stepped));
    assert_eq!(RemoveRangesReducer::<TestRanges>::new(b"").fast_forward(8), None);
}

#[test]
fn remove_ranges_reduce_removes_the_window() {
    let seed = b"0123456789abcdefghij";
    let reducer = state(vec![5..16, 0..10, 7..11, 3..5], 2, 1);
    // The window holds 0..10 and 7..11, which together cover 0..11.
    assert_eq!(reducer.reduce(seed), Some(b"bcdefghij".to_vec()));
    assert_eq!(state(vec![], 0, 0).reduce(seed), None);
}

#[test]
fn remove_ranges_from_overlapping_ranges() {
    let seed = b"abcdefghijklmnop";
    assert_eq!(remove_ranges_from(seed, &vec![2..4, 3..6, 10..12]), b"abghijmnop".to_vec());
    assert_eq!(remove_ranges_from(seed, &vec![]), seed.to_vec());
}

#[derive(Clone, Debug, PartialEq, Eq)]
struct ByStart;

impl RemoveRanges for ByStart {
    type Order = StartOrder;

    fn remove_ranges(_: &[u8]) -> Vec<Range<u64>> {
        vec![0..10, 3..5, 3..5, 5..16, 7..11]
    }
}

#[test]
fn ranges_can_be_tried_in_another_order() {
    let reducer = RemoveRangesReducer::<ByStart>::new(b"");
    assert_eq!(reducer.ranges, vec![0..10, 3..5, 5..16, 7..11]);
    assert_eq!(reducer.chunk_size, 4);
    assert_eq!(reducer.index, 0);
}

#[test]
fn removal_order_tries_larger_then_later_ranges_first() {
    assert!(RemovalOrder::in_order(&(0..10), &(3..5)));
    assert!(!RemovalOrder::in_order(&(3..5), &(0..10)));
    assert!(RemovalOrder::in_order(&(6..8), &(3..5)));
    assert!(!RemovalOrder::in_order(&(3..5), &(6..8)));
    assert!(RemovalOrder::in_order(&(3..5), &(3..5)));
    assert!(StartOrder::in_order(&(3..5), &(6..8)));
    assert!(!StartOrder::in_order(&(6..8), &(3..5)));
}

#[test]
fn sort_ranges_by_compares_in_removal_order() {
    assert_eq!(sort_ranges_by(&(0..10), &(3..5)), Ordering::Less);
    assert_eq!(sort_ranges_by(&(3..5), &(0..10)), Ordering::Greater);
    assert_eq!(sort_ranges_by(&(6..8), &(3..5)), Ordering::Less);
    assert_eq!(sort_ranges_by(&(3..5), &(6..8)), Ordering::Greater);
    assert_eq!(sort_ranges_by(&(3..5), &(3..5)), Ordering::Equal);
}
