use kprobe_events::aggregation::{AggregationTable, TableError};
use kprobe_events::collector::merge_totals;

#[test]
fn counts_merge_across_workers() {
    let mut t = AggregationTable::new(2, 16);
    for _ in 0..3 {
        t.record(0, 1000).unwrap();
    }
    for _ in 0..2 {
        t.record(1, 1000).unwrap();
    }
    assert_eq!(t.get(0, 1000).unwrap().count, 3);
    assert_eq!(t.get(1, 1000).unwrap().count, 2);
    assert_eq!(t.snapshot(), vec![(1000, 5)]);
}

#[test]
fn k_invocations_on_one_worker_give_k() {
    let mut t = AggregationTable::new(4, 16);
    for _ in 0..7 {
        t.record(2, 0).unwrap();
    }
    assert_eq!(t.get(2, 0).unwrap().count, 7);
    assert_eq!(t.get(0, 0).unwrap().count, 0);
    assert!(t.get(2, 1).is_none());
}

#[test]
fn reading_does_not_reset() {
    let mut t = AggregationTable::new(1, 4);
    t.record(0, 5).unwrap();
    assert_eq!(t.snapshot(), vec![(5, 1)]);
    assert_eq!(t.snapshot(), vec![(5, 1)]);
    t.record(0, 5).unwrap();
    assert_eq!(t.snapshot(), vec![(5, 2)]);
}

#[test]
fn full_table_refuses_new_key_and_keeps_old_ones() {
    let mut t = AggregationTable::new(1, 2);
    t.record(0, 1).unwrap();
    t.record(0, 2).unwrap();
    assert_eq!(t.record(0, 3), Err(TableError::Full));
    assert_eq!(t.snapshot(), vec![(1, 1), (2, 1)]);
    assert!(t.record(0, 1).is_ok());
    assert_eq!(t.snapshot(), vec![(1, 2), (2, 1)]);
}

#[test]
fn unknown_worker_is_refused() {
    let mut t = AggregationTable::new(2, 2);
    assert_eq!(t.record(2, 1), Err(TableError::NoSuchWorker));
    assert_eq!(t.snapshot(), vec![]);
}

#[test]
fn merge_totals_sums_per_worker_values() {
    let entries = vec![(1000u32, vec![3u64, 2]), (0u32, vec![1u64, 0]), (1000u32, vec![1u64, 1])];
    assert_eq!(merge_totals(&entries), vec![(1000, 7), (0, 1)]);
}

#[test]
fn merge_totals_saturates() {
    let entries = vec![(1u32, vec![u64::MAX, 1])];
    assert_eq!(merge_totals(&entries), vec![(1, u64::MAX)]);
    assert_eq!(merge_totals(&vec![]), vec![]);
}
