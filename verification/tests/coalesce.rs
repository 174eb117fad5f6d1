use std::ops::Range;

use icefalldb_query::coalesce::coalesce_ranges;
use icefalldb_query::sort::sort_places;

#[test]
fn test_disjoint_ranges_stay_separate() {
    let mut ranges = vec![0..10, 20..30, 40..50];
    let coalesced = coalesce_ranges(&mut ranges, 5);
    assert_eq!(coalesced, vec![0..10, 20..30, 40..50]);
    assert!(ranges.is_empty());
}

#[test]
fn test_overlapping_ranges_merge() {
    let mut ranges = vec![0..10, 5..15, 20..30];
    let coalesced = coalesce_ranges(&mut ranges, 0);
    assert_eq!(coalesced, vec![0..15, 20..30]);
}

#[test]
fn test_window_merges_nearby_ranges() {
    let mut ranges = vec![0..10, 15..25, 30..40];
    let coalesced = coalesce_ranges(&mut ranges, 5);
    assert_eq!(coalesced, vec![0..40]);
}

#[test]
fn test_unsorted_input() {
    let mut ranges = vec![50..60, 10..20, 15..25, 0..5];
    let coalesced = coalesce_ranges(&mut ranges, 0);
    assert_eq!(coalesced, vec![0..5, 10..25, 50..60]);
}

#[test]
fn test_empty_input() {
    let mut ranges: Vec<Range<u64>> = vec![];
    let coalesced = coalesce_ranges(&mut ranges, 10);
    assert!(coalesced.is_empty());
}

#[test]
fn touching_ranges_merge_without_a_window() {
    let mut ranges = vec![0..10, 10..20];
    assert_eq!(coalesce_ranges(&mut ranges, 0), vec![0..20]);
}

#[test]
fn a_gap_of_one_more_than_the_window_stays() {
    let mut ranges = vec![0..10, 16..20];
    assert_eq!(coalesce_ranges(&mut ranges, 5), vec![0..10, 16..20]);
}

#[test]
fn an_inner_range_does_not_shorten_the_outer_one() {
    let mut ranges = vec![0..100, 10..20, 101..102];
    assert_eq!(coalesce_ranges(&mut ranges, 1), vec![0..102]);
}

#[test]
fn the_window_stops_at_the_largest_number() {
    let mut ranges = vec![u64::MAX - 10..u64::MAX - 5, u64::MAX - 1..u64::MAX];
    assert_eq!(
        coalesce_ranges(&mut ranges, u64::MAX),
        vec![u64::MAX - 10..u64::MAX]
    );
}

#[test]
fn merging_twice_is_merging_once() {
    let mut ranges = vec![90..95, 3..9, 0..4, 40..41];
    let mut once = coalesce_ranges(&mut ranges, 2);
    let expected = once.clone();
    assert_eq!(coalesce_ranges(&mut once, 2), expected);
}

#[test]
fn sorting_keeps_the_order_of_equal_keys() {
    assert_eq!(sort_places(&vec![5, 1, 5, 0, 1]), vec![3, 1, 4, 0, 2]);
}

#[test]
fn the_order_of_ranges_does_not_matter() {
    let mut a: Vec<Range<u64>> = vec![0..10, 12..20, 12..15, 40..50];
    let mut b: Vec<Range<u64>> = vec![40..50, 12..15, 0..10, 12..20];
    let first = coalesce_ranges(&mut a, 2);
    assert_eq!(first, coalesce_ranges(&mut b, 2));
    assert_eq!(first, vec![0..20, 40..50]);
}

#[test]
fn a_smaller_window_may_come_first() {
    let ranges: Vec<Range<u64>> = vec![0..10, 12..20, 30..40, 100..110];
    let mut narrow = coalesce_ranges(&mut ranges.clone(), 2);
    assert_eq!(narrow, vec![0..20, 30..40, 100..110]);
    let wide = coalesce_ranges(&mut ranges.clone(), 10);
    assert_eq!(coalesce_ranges(&mut narrow, 10), wide);
    assert_eq!(wide, vec![0..40, 100..110]);
}
