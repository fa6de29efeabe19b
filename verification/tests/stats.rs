use minimal_bench::binary64::Binary64;
use minimal_bench::clock::kept_micros;
use minimal_bench::histogram::{counted, highest_counted};
use minimal_bench::stats::{ConsumerPollStats, ProducerSendStats, Quantiles};
use std::time::{Duration, Instant};

fn number(x: f64) -> Binary64 {
    Binary64 { bits: x.to_bits() }
}

fn quantiles(p50: u64, p99: u64, p999: u64) -> Quantiles {
    Quantiles { p50, p99, p999 }
}

#[test]
fn new_poll_stats_are_empty() {
    let s = ConsumerPollStats::new(3);
    assert_eq!((s.consumer_id, s.poll_count, s.empty_poll_count, s.total_messages), (3, 0, 0, 0));
    assert_eq!(counted(&s.poll_duration_hist), 0);
    assert_eq!(counted(&s.messages_per_poll_hist), 0);
    assert_eq!(counted(&s.time_between_polls_hist), 0);
    assert!(s.last_poll_end.is_none());
}

#[test]
fn polls_are_counted_by_what_they_brought() {
    let mut s = ConsumerPollStats::new(0);
    let now = Instant::now();
    s.record_poll_after(100, 0, 77, now);
    s.record_poll_after(200, 5, 40, now);
    s.record_poll_after(300, 7, 50, now);
    assert_eq!((s.poll_count, s.empty_poll_count, s.total_messages), (3, 1, 12));
    assert_eq!(counted(&s.poll_duration_hist), 3);
    assert_eq!(highest_counted(&s.poll_duration_hist), 300);
    assert_eq!(counted(&s.messages_per_poll_hist), 2);
    assert_eq!(highest_counted(&s.messages_per_poll_hist), 7);
    // The first poll has nothing before it to be measured from.
    assert_eq!(counted(&s.time_between_polls_hist), 2);
    assert_eq!(highest_counted(&s.time_between_polls_hist), 50);
    assert_eq!(s.last_poll_end, Some(now));
}

#[test]
fn time_between_polls_is_measured() {
    let mut s = ConsumerPollStats::new(0);
    s.record_poll(10, 1);
    let first = s.last_poll_end.unwrap();
    while first.elapsed() < Duration::from_millis(3) {}
    s.record_poll(20, 0);
    assert_eq!(counted(&s.time_between_polls_hist), 1);
    assert!(highest_counted(&s.time_between_polls_hist) >= 3000);
    assert!(highest_counted(&s.time_between_polls_hist) < 10_000_000);
    assert!(s.last_poll_end.unwrap() > first);
}

#[test]
fn poll_snapshot_has_rates_and_averages() {
    let mut s = ConsumerPollStats::new(9);
    let now = Instant::now();
    for n in [0, 0, 0, 3, 4, 0, 0, 0] {
        s.record_poll_after(1, n, 1, now);
    }
    let r = s.snapshot(number(2.0), quantiles(1, 2, 3), quantiles(4, 5, 6), quantiles(7, 8, 9));
    assert_eq!(r.consumer_id, 9);
    assert_eq!(r.polls_per_sec, number(4.0));
    assert_eq!(r.empty_polls_per_sec, number(3.0));
    assert_eq!(r.empty_poll_ratio, number(0.75));
    assert_eq!(r.messages_per_poll_avg, number(3.5));
    assert_eq!(
        (r.poll_duration_p50_us, r.poll_duration_p99_us, r.poll_duration_p999_us),
        (1, 2, 3)
    );
    assert_eq!(
        (r.messages_per_poll_p50, r.messages_per_poll_p99, r.messages_per_poll_p999),
        (4, 5, 6)
    );
    assert_eq!(
        (r.time_between_polls_p50_us, r.time_between_polls_p99_us, r.time_between_polls_p999_us),
        (7, 8, 9)
    );
}

#[test]
fn poll_snapshot_without_polls_is_zero() {
    let s = ConsumerPollStats::new(0);
    let q = quantiles(0, 0, 0);
    for elapsed in [0.0, 5.0] {
        let r = s.snapshot(number(elapsed), q, q, q);
        assert_eq!(r.polls_per_sec, number(0.0));
        assert_eq!(r.empty_poll_ratio, number(0.0));
        assert_eq!(r.messages_per_poll_avg, number(0.0));
    }
}

#[test]
fn empty_polls_are_at_most_all_polls() {
    let mut s = ConsumerPollStats::new(0);
    let q = quantiles(0, 0, 0);
    s.record_poll_after(1, 0, 0, Instant::now());
    assert_eq!(s.snapshot(number(1.0), q, q, q).empty_poll_ratio, number(1.0));
    assert_eq!(s.snapshot(number(1.0), q, q, q).messages_per_poll_avg, number(0.0));
    s.record_poll_after(1, 2, 0, Instant::now());
    s.record_poll_after(1, 2, 0, Instant::now());
    assert_eq!(s.snapshot(number(1.0), q, q, q).empty_poll_ratio, number(1.0 / 3.0));
}

#[test]
fn new_send_stats_are_empty() {
    let s = ProducerSendStats::new(2);
    assert_eq!((s.producer_id, s.send_count, s.total_messages, s.total_bytes), (2, 0, 0, 0));
    assert_eq!(counted(&s.send_duration_hist), 0);
    assert_eq!(counted(&s.messages_per_send_hist), 0);
}

#[test]
fn sends_are_added_up() {
    let mut s = ProducerSendStats::new(1);
    s.record_send(40, 1, 250);
    s.record_send(60, 4, 1000);
    assert_eq!((s.send_count, s.total_messages, s.total_bytes), (2, 5, 1250));
    assert_eq!(highest_counted(&s.send_duration_hist), 60);
    assert_eq!(highest_counted(&s.messages_per_send_hist), 4);
    let r = s.snapshot(number(0.5), quantiles(40, 60, 60), 1);
    assert_eq!(r.producer_id, 1);
    assert_eq!(r.sends_per_sec, number(4.0));
    assert_eq!(
        (r.send_duration_p50_us, r.send_duration_p99_us, r.send_duration_p999_us),
        (40, 60, 60)
    );
    assert_eq!(r.messages_per_send_avg, number(2.5));
    assert_eq!(r.messages_per_send_p50, 1);
    assert_eq!(r.bytes_per_send_avg, number(625.0));
}

#[test]
fn send_snapshot_without_sends_is_zero() {
    let r = ProducerSendStats::new(0).snapshot(number(0.0), quantiles(0, 0, 0), 0);
    assert_eq!(r.sends_per_sec, number(0.0));
    assert_eq!(r.messages_per_send_avg, number(0.0));
    assert_eq!(r.bytes_per_send_avg, number(0.0));
}

#[test]
fn microseconds_are_kept_in_64_bits() {
    for micros in [0, 1, u64::MAX as u128, 1 << 64, (7 << 64) + 3, u128::MAX] {
        assert_eq!(kept_micros(micros), micros as u64);
    }
    assert_eq!(kept_micros((7 << 64) + 3), 3);
}

#[test]
fn polls_with_messages_bring_at_least_one() {
    let mut s = ConsumerPollStats::new(0);
    let q = quantiles(0, 0, 0);
    for n in [0, 1, 1, 0, 1] {
        s.record_poll_after(1, n, 1, Instant::now());
    }
    assert_eq!(s.snapshot(number(1.0), q, q, q).messages_per_poll_avg, number(1.0));
    s.record_poll_after(1, 2, 1, Instant::now());
    assert_eq!(s.snapshot(number(1.0), q, q, q).messages_per_poll_avg, number(1.25));
}
