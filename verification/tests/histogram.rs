use minimal_bench::histogram::{
    bucket_counts, count_all, count_value, counted, highest_counted, new_histogram,
    nothing_counted,
};

#[test]
fn new_histogram_has_counted_nothing() {
    let h = new_histogram();
    assert!(nothing_counted(&h));
    assert_eq!(counted(&h), 0);
    assert_eq!(highest_counted(&h), 0);
    assert_eq!(bucket_counts(&h), vec![]);
}

#[test]
fn small_values_are_counted_exactly() {
    let mut h = new_histogram();
    for v in [0, 1, 2047, 2047, 500] {
        count_value(&mut h, v);
    }
    assert!(!nothing_counted(&h));
    assert_eq!(counted(&h), 5);
    assert_eq!(highest_counted(&h), 2047);
    assert_eq!(bucket_counts(&h), vec![(0, 1), (1, 1), (500, 1), (2047, 2)]);
}

#[test]
fn zero_counts_as_a_value() {
    let mut h = new_histogram();
    count_value(&mut h, 0);
    assert!(!nothing_counted(&h));
    assert_eq!(counted(&h), 1);
    assert_eq!(highest_counted(&h), 0);
}

#[test]
fn large_values_share_buckets() {
    let mut h = new_histogram();
    count_value(&mut h, 2048);
    count_value(&mut h, 2049);
    assert_eq!(bucket_counts(&h), vec![(2049, 2)]);
    assert_eq!(highest_counted(&h), 2049);
    count_value(&mut h, 999_936);
    count_value(&mut h, 1_000_447);
    count_value(&mut h, 1_000_448);
    assert_eq!(bucket_counts(&h), vec![(2049, 2), (1_000_447, 2), (1_000_959, 1)]);
    assert_eq!(highest_counted(&h), 1_000_959);
}

#[test]
fn histogram_grows_to_the_largest_value() {
    let mut h = new_histogram();
    count_value(&mut h, u64::MAX);
    count_value(&mut h, u64::MAX / 3);
    assert_eq!(counted(&h), 2);
    assert!(highest_counted(&h) >= u64::MAX - 1);
    let list = bucket_counts(&h);
    assert_eq!(list.len(), 2);
    assert_eq!(list[1], (u64::MAX - 1, 1));
}

#[test]
fn histograms_are_merged() {
    let mut a = new_histogram();
    let mut b = new_histogram();
    count_value(&mut a, 10);
    count_value(&mut b, 10);
    count_value(&mut b, 70_000);
    count_all(&mut a, &b);
    assert_eq!(counted(&a), 3);
    assert_eq!(counted(&b), 2);
    assert_eq!(bucket_counts(&a), vec![(10, 2), (70_015, 1)]);
    assert_eq!(highest_counted(&a), 70_015);
    let empty = new_histogram();
    count_all(&mut a, &empty);
    assert_eq!(counted(&a), 3);
    let mut fresh = new_histogram();
    count_all(&mut fresh, &a);
    assert_eq!(counted(&fresh), 3);
}

#[test]
fn listed_buckets_have_the_same_quantiles() {
    let mut whole = hdrhistogram::Histogram::<u64>::new(3).unwrap();
    let mut h = new_histogram();
    let mut x: u64 = 12345;
    for _ in 0..5000 {
        x = x.wrapping_mul(6364136223846793005).wrapping_add(1442695040888963407);
        let v = (x >> 33) >> (x % 29);
        whole.record(v).unwrap();
        count_value(&mut h, v);
    }
    let mut again = hdrhistogram::Histogram::<u64>::new(3).unwrap();
    for (value, count) in bucket_counts(&h) {
        again.record_n(value, count).unwrap();
    }
    for q in [0.5, 0.9, 0.99, 0.999, 1.0] {
        assert_eq!(again.value_at_quantile(q), whole.value_at_quantile(q));
    }
    assert_eq!(again.mean(), whole.mean());
    assert_eq!(again.len(), counted(&h));
    assert_eq!(again.max(), highest_counted(&h));
}
