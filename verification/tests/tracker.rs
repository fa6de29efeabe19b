use minimal_bench::binary64::Binary64;
use minimal_bench::tracker::{PartitionTracker, PartitionTrackers};

fn number(x: f64) -> Binary64 {
    Binary64 { bits: x.to_bits() }
}

#[test]
fn new_tracker_is_empty() {
    let t = PartitionTracker::new(5);
    assert_eq!(t, PartitionTracker { partition_id: 5, ..PartitionTracker::default() });
    assert_eq!(t.current_lag(), 0);
    assert_eq!((t.produced_count, t.consumed_count, t.max_lag), (0, 0, 0));
}

#[test]
fn produced_and_consumed_messages_are_counted() {
    let mut t = PartitionTracker::new(1);
    t.record_produce(0, 250);
    t.record_produce(1, 250);
    t.record_produce(2, 100);
    assert_eq!((t.produced_seq, t.produced_count, t.produced_bytes), (2, 3, 600));
    assert_eq!(t.current_lag(), 2);
    t.record_consume(0, 250);
    assert_eq!((t.consumed_seq, t.consumed_count, t.consumed_bytes), (0, 1, 250));
    assert_eq!((t.max_lag, t.lag_sum, t.lag_samples), (2, 2, 1));
    t.record_consume(1, 250);
    assert_eq!((t.max_lag, t.lag_sum, t.lag_samples), (2, 3, 2));
    assert_eq!(t.current_lag(), 1);
    t.record_consume(2, 100);
    assert_eq!((t.max_lag, t.lag_sum, t.lag_samples), (2, 3, 3));
    assert_eq!(t.current_lag(), 0);
}

#[test]
fn late_reports_do_not_lower_the_highest_sequence() {
    let mut t = PartitionTracker::new(0);
    t.record_produce(10, 1);
    t.record_produce(4, 1);
    assert_eq!(t.produced_seq, 10);
    t.record_consume(9, 1);
    t.record_consume(3, 1);
    assert_eq!(t.consumed_seq, 9);
    assert_eq!((t.max_lag, t.lag_sum), (7, 8));
}

#[test]
fn consumption_ahead_of_production_has_no_lag() {
    let mut t = PartitionTracker::new(0);
    t.record_consume(12, 1);
    assert_eq!((t.current_lag(), t.max_lag, t.lag_sum, t.lag_samples), (0, 0, 0, 1));
}

#[test]
fn report_order_does_not_matter() {
    let mut a = PartitionTracker::new(3);
    a.record_produce(100, 7);
    let mut b = a;
    a.record_consume(10, 1);
    a.record_consume(90, 2);
    b.record_consume(90, 2);
    b.record_consume(10, 1);
    assert_eq!(a, b);
    a.record_produce(5, 1);
    a.record_produce(200, 2);
    b.record_produce(200, 2);
    b.record_produce(5, 1);
    assert_eq!(a, b);
}

#[test]
fn byte_counters_wrap_around() {
    let mut t = PartitionTracker::new(0);
    t.record_produce(0, u64::MAX);
    t.record_produce(1, 3);
    assert_eq!(t.produced_bytes, 2);
    t.record_consume(0, u64::MAX);
    t.record_consume(1, 1);
    assert_eq!(t.consumed_bytes, 0);
}

#[test]
fn tracker_snapshot_has_rates_and_mean_lag() {
    let mut t = PartitionTracker::new(4);
    for seq in 0..10 {
        t.record_produce(seq, 20);
    }
    for seq in 0..3 {
        t.record_consume(seq, 20);
    }
    let s = t.snapshot(number(4.0));
    assert_eq!(s.partition_id, 4);
    assert_eq!((s.produced_count, s.consumed_count), (10, 3));
    assert_eq!((s.produced_bytes, s.consumed_bytes), (200, 60));
    assert_eq!(s.produced_per_sec, number(2.5));
    assert_eq!(s.consumed_per_sec, number(0.75));
    assert_eq!((s.current_lag, s.max_lag), (7, 9));
    assert_eq!(s.avg_lag, number(8.0));
}

#[test]
fn tracker_snapshot_without_time_or_samples_is_zero() {
    let mut t = PartitionTracker::new(0);
    t.record_produce(1, 1);
    for elapsed in [0.0, -0.0, -1.0, f64::NAN] {
        let s = t.snapshot(number(elapsed));
        assert_eq!(s.produced_per_sec, number(0.0));
        assert_eq!(s.consumed_per_sec, number(0.0));
        assert_eq!(s.avg_lag, number(0.0));
    }
}

#[test]
fn mean_lag_stays_below_the_maximum() {
    let mut t = PartitionTracker::new(0);
    t.record_produce(50, 1);
    for seq in [3, 49, 20, 50, 0] {
        t.record_consume(seq, 1);
    }
    assert_eq!((t.lag_sum, t.max_lag, t.lag_samples), (128, 50, 5));
    assert!(t.lag_sum <= t.max_lag * t.lag_samples);
}

#[test]
fn registry_has_one_tracker_for_each_partition() {
    let trackers = PartitionTrackers::new(3);
    for i in 0..3 {
        assert_eq!(trackers.get(i), Some(&PartitionTracker::new(i)));
    }
    assert_eq!(trackers.get(3), None);
    assert_eq!(PartitionTrackers::new(0).get(0), None);
}

#[test]
fn registry_records_by_partition() {
    let mut trackers = PartitionTrackers::new(2);
    trackers.record_produce(1, 8, 100);
    trackers.record_consume(1, 5, 90);
    trackers.record_produce(7, 8, 100);
    trackers.record_consume(7, 8, 100);
    assert_eq!(trackers.get(0), Some(&PartitionTracker::new(0)));
    let mut expected = PartitionTracker::new(1);
    expected.record_produce(8, 100);
    expected.record_consume(5, 90);
    assert_eq!(trackers.get(1), Some(&expected));
    assert_eq!(trackers.get(7), None);
}

#[test]
fn registry_snapshots_are_in_order() {
    let mut trackers = PartitionTrackers::new(20);
    trackers.record_produce(13, 4, 1);
    let list = trackers.snapshots(number(2.0));
    assert_eq!(list.len(), 20);
    for (i, s) in list.iter().enumerate() {
        assert_eq!(s.partition_id, i as u32);
        assert_eq!(*s, trackers.get(i as u32).unwrap().snapshot(number(2.0)));
    }
    assert_eq!(list[13].produced_per_sec, number(0.5));
    assert!(PartitionTrackers::new(0).snapshots(number(1.0)).is_empty());
}

#[test]
fn mean_lag_needs_only_the_sum_to_fit() {
    let mut t = PartitionTracker::new(0);
    t.record_produce(u64::MAX, 1);
    t.record_consume(0, 1);
    t.record_consume(u64::MAX, 1);
    assert_eq!((t.lag_sum, t.max_lag, t.lag_samples), (u64::MAX, u64::MAX, 2));
    t.record_consume(0, 1);
    assert_eq!((t.lag_sum, t.lag_samples), (u64::MAX - 1, 3));
}
