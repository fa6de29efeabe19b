use minimal_bench::banner::{describe_configuration, describe_topology, RunOptions};
use minimal_bench::binary64::Binary64;
use minimal_bench::histogram::{count_value, new_histogram};
use minimal_bench::report::{BenchmarkConfig, DiagnosticReport, OverallMetrics};
use minimal_bench::results::{
    describe_consumer_results, describe_consumers, describe_producer_results, describe_producers,
    overall_metrics, run_throughput, summarize_actor, total_consumers, ConsumerTotals,
    LatencyReading,
};
use minimal_bench::stats::{ConsumerPollSnapshot, ProducerSendSnapshot, Quantiles};
use minimal_bench::text::{decimal_text, push_bracketed, push_right};
use minimal_bench::tracker::PartitionSnapshot;

fn number(x: f64) -> Binary64 {
    Binary64 { bits: x.to_bits() }
}

fn config() -> BenchmarkConfig {
    BenchmarkConfig {
        producers: 2,
        consumers: 3,
        partitions: 4,
        redundancy: 2,
        messages: 100_000,
        message_size: 250,
        batch_size: 1,
        poll_interval_us: 50,
        balanced: false,
        producer_only: false,
    }
}

fn reading() -> LatencyReading {
    LatencyReading { p50: 10, p90: 20, p99: 30, p999: 40, mean: number(12.5) }
}

#[test]
fn numbers_and_lists_are_written_as_usual() {
    for n in [0u128, 7, 10, 99, 100, 1_000_000_007, u64::MAX as u128, u128::MAX] {
        assert_eq!(decimal_text(n), n.to_string());
    }
    for list in [vec![], vec![5u32], vec![1, 22, 333, u32::MAX]] {
        let mut s = String::from("x");
        push_bracketed(&mut s, &list);
        assert_eq!(s, format!("x{:?}", list));
    }
    for (text, width) in [("abc", 2), ("abc", 3), ("abc", 9), ("", 4)] {
        let mut s = String::from("x");
        push_right(&mut s, text, width);
        assert_eq!(s, format!("x{:>width$}", text, width = width));
    }
}

#[test]
fn configuration_is_described() {
    let o = RunOptions { throughput: 0, verbose: true, diagnostics: false };
    assert_eq!(
        describe_configuration(config(), o),
        vec![
            "=== Minimal Rust Benchmark ===",
            "Messages: 100000",
            "Message size: 250 bytes",
            "Producers (P): 2",
            "Partitions (N): 4",
            "Redundancy (R): 2",
            "Consumers: 3",
            "Target throughput: unlimited msg/s",
            "Poll interval: 50us",
            "Verbose: true",
            "Balanced partitioning: false",
            "Diagnostics: false",
            "",
        ]
    );
}

#[test]
fn configuration_without_consumers_and_with_a_target() {
    let o = RunOptions { throughput: 50_000, verbose: false, diagnostics: true };
    let c = BenchmarkConfig { producer_only: true, balanced: true, ..config() };
    let lines = describe_configuration(c, o);
    assert_eq!(lines[6], "Consumers: 0");
    assert_eq!(lines[7], "Target throughput: 50000 msg/s");
    assert_eq!(lines[9], "Verbose: false");
    assert_eq!(lines[10], "Balanced partitioning: true");
    assert_eq!(lines[11], "Diagnostics: true");
}

#[test]
fn topology_is_described() {
    assert_eq!(
        describe_topology(config()),
        vec!["Partition assignments:", "  Producer 0 -> [0, 1]", "  Producer 1 -> [2, 3]", ""]
    );
    assert_eq!(
        describe_topology(BenchmarkConfig { balanced: true, ..config() }),
        vec!["Partition assignments: balanced (server routes to all 4 partitions)", ""]
    );
    assert_eq!(
        describe_topology(BenchmarkConfig { producers: 0, ..config() }),
        vec!["Partition assignments:", ""]
    );
}

#[test]
fn producer_results_are_described() {
    let mut h = new_histogram();
    assert_eq!(
        describe_producer_results(1000, number(0.75), "750ms", &h, reading()),
        vec![
            "",
            "=== Producer Results ===",
            "Produced: 1000 msgs in 750ms",
            "Producer throughput: 1333 msg/s",
        ]
    );
    count_value(&mut h, 5);
    assert_eq!(
        describe_producer_results(1000, number(0.75), "750ms", &h, reading())[4],
        "Send latency (us): p50=10 p99=30 p999=40 avg=12"
    );
}

#[test]
fn consumer_results_are_described() {
    let mut h = new_histogram();
    assert_eq!(
        describe_consumer_results(0, number(2.0), "2s", &h, reading()),
        vec![
            "",
            "=== Consumer Results ===",
            "Consumed: 0 msgs in 2s",
            "Consumer throughput: 0 msg/s",
        ]
    );
    for v in [1, 2, 77] {
        count_value(&mut h, v);
    }
    assert_eq!(
        describe_consumer_results(3, number(2.0), "2s", &h, reading()),
        vec![
            "",
            "=== Consumer Results ===",
            "Consumed: 3 msgs in 2s",
            "Consumer throughput: 2 msg/s",
            "",
            "Latency (us) - 3 samples:",
            "  p50:   10",
            "  p90:   20",
            "  p99:   30",
            "  p999:  40",
            "  max:   77",
            "  avg:   12",
        ]
    );
}

#[test]
fn throughput_without_time_is_not_finite() {
    assert_eq!(run_throughput(5, number(0.0)), number(f64::INFINITY));
    assert_eq!(
        describe_producer_results(5, number(0.0), "0ns", &new_histogram(), reading())[3],
        "Producer throughput: inf msg/s"
    );
    assert_eq!(
        describe_producer_results(0, number(0.0), "0ns", &new_histogram(), reading())[3],
        "Producer throughput: NaN msg/s"
    );
}

#[test]
fn actors_are_described_one_by_one() {
    let empty = new_histogram();
    let mut used = new_histogram();
    count_value(&mut used, 9);
    let q = Quantiles { p50: 1, p99: 2, p999: 3 };
    let producers = vec![
        summarize_actor(0, 500, number(0.4), vec![0, 1], &used, q),
        summarize_actor(1, 0, number(0.4), vec![], &empty, q),
    ];
    assert_eq!(
        describe_producers(&producers),
        vec![
            "",
            "--- Per-Producer Stats ---",
            "  Producer 0: 500 msgs, 1250 msg/s, partitions [0, 1]",
            "    latency (us): p50=1 p99=2 p999=3",
            "  Producer 1: 0 msgs, 0 msg/s, partitions []",
        ]
    );
    assert!(describe_producers(&vec![]).is_empty());
    let consumers = vec![
        summarize_actor(0, 10, number(0.0), vec![3], &used, q),
        summarize_actor(1, 0, number(1.0), vec![], &used, q),
        summarize_actor(2, 8, number(3.0), vec![1, 2], &empty, q),
    ];
    assert_eq!(
        describe_consumers(&consumers),
        vec![
            "",
            "--- Per-Consumer Stats ---",
            "  Consumer 0: 10 msgs, 0 msg/s, partitions [3]",
            "    latency (us): p50=1 p99=2 p999=3",
            "  Consumer 1: IDLE - 0 msgs, partitions seen: []",
            "  Consumer 2: 8 msgs, 3 msg/s, partitions [1, 2]",
            "",
            "WARNING: 1 of 3 consumers were idle!",
            "This suggests consumer group partition assignment is not distributing load.",
        ]
    );
    assert!(describe_consumers(&vec![]).is_empty());
    let busy = vec![summarize_actor(5, 4, number(2.0), vec![0], &empty, q)];
    assert_eq!(
        describe_consumers(&busy),
        vec!["", "--- Per-Consumer Stats ---", "  Consumer 5: 4 msgs, 2 msg/s, partitions [0]"]
    );
}

#[test]
fn overall_figures_are_put_together() {
    let mut h = new_histogram();
    count_value(&mut h, 1);
    let totals = total_consumers(600, number(3.0), &h, reading());
    assert_eq!(
        totals,
        ConsumerTotals { messages: 600, elapsed_secs: number(3.0), latency: Some(reading()) }
    );
    let other = LatencyReading { p50: 1, p90: 2, p99: 3, p999: 4, mean: number(2.0) };
    assert_eq!(
        overall_metrics(number(4.0), 500, number(2.0), other, Some(totals)),
        OverallMetrics {
            elapsed_secs: number(4.0),
            producer_throughput: number(250.0),
            consumer_throughput: number(200.0),
            producer_p50_us: 1,
            producer_p99_us: 3,
            consumer_p50_us: 10,
            consumer_p99_us: 30,
            consumer_p999_us: 40,
        }
    );
}

#[test]
fn overall_figures_without_consumers_are_zero() {
    let nothing = total_consumers(0, number(3.0), &new_histogram(), reading());
    assert_eq!(nothing.latency, None);
    for consumers in [None, Some(nothing)] {
        let m = overall_metrics(number(4.0), 500, number(2.0), reading(), consumers);
        assert_eq!(m.consumer_throughput, number(0.0));
        assert_eq!((m.consumer_p50_us, m.consumer_p99_us, m.consumer_p999_us), (0, 0, 0));
        assert_eq!((m.producer_p50_us, m.producer_p99_us), (10, 30));
    }
}

#[test]
fn report_is_laid_out_in_tables() {
    let p = PartitionSnapshot {
        partition_id: 3,
        produced_count: 1234,
        consumed_count: 1200,
        produced_bytes: 0,
        consumed_bytes: 0,
        produced_per_sec: number(1234.5),
        consumed_per_sec: number(1199.5),
        current_lag: 34,
        max_lag: 1500,
        avg_lag: number(1.0),
    };
    let c = ConsumerPollSnapshot {
        consumer_id: 12345,
        polls_per_sec: number(11698.4),
        empty_polls_per_sec: number(1181.5),
        empty_poll_ratio: number(0.101),
        poll_duration_p50_us: 85,
        poll_duration_p99_us: 298,
        poll_duration_p999_us: 12_345_678_901,
        messages_per_poll_avg: number(1.25),
        messages_per_poll_p50: 1,
        messages_per_poll_p99: 20,
        messages_per_poll_p999: 20,
        time_between_polls_p50_us: 1,
        time_between_polls_p99_us: 2,
        time_between_polls_p999_us: 3,
    };
    let s = ProducerSendSnapshot {
        producer_id: 0,
        sends_per_sec: number(99.9),
        send_duration_p50_us: 40,
        send_duration_p99_us: 60,
        send_duration_p999_us: 70,
        messages_per_send_avg: number(1.0),
        messages_per_send_p50: 1,
        bytes_per_send_avg: number(250.0),
    };
    let zero = number(0.0);
    let overall = OverallMetrics {
        elapsed_secs: zero,
        producer_throughput: zero,
        consumer_throughput: zero,
        producer_p50_us: 0,
        producer_p99_us: 0,
        consumer_p50_us: 0,
        consumer_p99_us: 2000,
        consumer_p999_us: 0,
    };
    let r = DiagnosticReport::analyze(config(), overall, vec![p], vec![c], vec![s]);
    let lines = r.print_human_readable();
    assert_eq!(
        lines,
        vec![
            String::new(),
            "=== Diagnostic Report ===".to_string(),
            String::new(),
            "--- Per-Partition Metrics ---".to_string(),
            "Part   Produced   Consumed     Prod/s     Cons/s      Lag   MaxLag".to_string(),
            format!(
                "{:>4} {:>10} {:>10} {:>10.0} {:>10.0} {:>8} {:>8}",
                3, 1234, 1200, 1234.5, 1199.5, 34, 1500
            ),
            String::new(),
            "--- Consumer Poll Behavior ---".to_string(),
            "  ID    Polls/s    Empty/s   Empty%    Dur p50    Dur p99   Dur p999  Msgs/poll"
                .to_string(),
            format!(
                "{:>4} {:>10.0} {:>10.0} {:>7.1}% {:>9}us {:>9}us {:>9}us {:>10.1}",
                12345,
                11698.4,
                1181.5,
                0.101 * 100.0,
                85,
                298,
                12_345_678_901u64,
                1.25
            ),
            String::new(),
            "--- Producer Send Behavior ---".to_string(),
            "  ID    Sends/s    Dur p50    Dur p99   Dur p999    Msgs/send".to_string(),
            "   0        100        40us        60us        70us          1.0".to_string(),
            String::new(),
            "--- Diagnostic Observations ---".to_string(),
            "[WARN] backlog: High max lag: 1500 msgs (partition 3). Latency likely includes queue wait time."
                .to_string(),
            String::new(),
            "--- Bottleneck Summary ---".to_string(),
            "FIFO queue residence time (backlog). Messages wait in partition queues before consumption."
                .to_string(),
        ]
    );
}

#[test]
fn empty_report_has_its_summary_only() {
    let zero = number(0.0);
    let overall = OverallMetrics {
        elapsed_secs: zero,
        producer_throughput: zero,
        consumer_throughput: zero,
        producer_p50_us: 0,
        producer_p99_us: 0,
        consumer_p50_us: 0,
        consumer_p99_us: 0,
        consumer_p999_us: 0,
    };
    let r = DiagnosticReport::analyze(config(), overall, vec![], vec![], vec![]);
    assert_eq!(
        r.print_human_readable(),
        vec![
            "",
            "=== Diagnostic Report ===",
            "",
            "--- Bottleneck Summary ---",
            "No clear bottleneck detected. System operating within normal parameters.",
        ]
    );
}
