use minimal_bench::binary64::Binary64;
use minimal_bench::report::{
    BenchmarkConfig, DiagnosticObservation, DiagnosticReport, OverallMetrics, Severity,
};
use minimal_bench::stats::{ConsumerPollSnapshot, ProducerSendSnapshot};
use minimal_bench::tracker::PartitionSnapshot;

const NO_BOTTLENECK: &str =
    "No clear bottleneck detected. System operating within normal parameters.";

fn number(x: f64) -> Binary64 {
    Binary64 { bits: x.to_bits() }
}

fn config(batch_size: u32) -> BenchmarkConfig {
    BenchmarkConfig {
        producers: 1,
        consumers: 1,
        partitions: 1,
        redundancy: 1,
        messages: 100,
        message_size: 250,
        batch_size,
        poll_interval_us: 0,
        balanced: false,
        producer_only: false,
    }
}

fn overall(p50: u64, p99: u64) -> OverallMetrics {
    OverallMetrics {
        elapsed_secs: number(1.0),
        producer_throughput: number(1.0),
        consumer_throughput: number(1.0),
        producer_p50_us: 1,
        producer_p99_us: 2,
        consumer_p50_us: p50,
        consumer_p99_us: p99,
        consumer_p999_us: p99,
    }
}

fn partition(id: u32, count: u64, prod: f64, cons: f64, lag: u64, max: u64) -> PartitionSnapshot {
    PartitionSnapshot {
        partition_id: id,
        produced_count: count,
        consumed_count: 0,
        produced_bytes: 0,
        consumed_bytes: 0,
        produced_per_sec: number(prod),
        consumed_per_sec: number(cons),
        current_lag: lag,
        max_lag: max,
        avg_lag: number(0.0),
    }
}

fn poll(id: usize, rate: f64, empty: f64, avg: f64, p99: u64, duration: u64) -> ConsumerPollSnapshot {
    ConsumerPollSnapshot {
        consumer_id: id,
        polls_per_sec: number(rate),
        empty_polls_per_sec: number(rate * empty),
        empty_poll_ratio: number(empty),
        poll_duration_p50_us: 1,
        poll_duration_p99_us: duration,
        poll_duration_p999_us: duration,
        messages_per_poll_avg: number(avg),
        messages_per_poll_p50: 1,
        messages_per_poll_p99: p99,
        messages_per_poll_p999: p99,
        time_between_polls_p50_us: 0,
        time_between_polls_p99_us: 0,
        time_between_polls_p999_us: 0,
    }
}

fn send(id: usize, rate: f64, avg: f64, p99: u64) -> ProducerSendSnapshot {
    ProducerSendSnapshot {
        producer_id: id,
        sends_per_sec: number(rate),
        send_duration_p50_us: 1,
        send_duration_p99_us: p99,
        send_duration_p999_us: p99,
        messages_per_send_avg: number(avg),
        messages_per_send_p50: 1,
        bytes_per_send_avg: number(250.0),
    }
}

fn said(list: &[DiagnosticObservation]) -> Vec<(String, Severity, String)> {
    list.iter().map(|o| (o.category.clone(), o.severity, o.message.clone())).collect()
}

fn one(category: &str, severity: Severity, message: &str) -> Vec<(String, Severity, String)> {
    vec![(category.to_string(), severity, message.to_string())]
}

#[test]
fn quiet_run_has_no_observations() {
    let r = DiagnosticReport::analyze(config(1), overall(10, 20), vec![], vec![], vec![]);
    assert!(r.observations.is_empty());
    assert_eq!(r.bottleneck_summary, NO_BOTTLENECK);
    assert_eq!(r.config, config(1));
    assert_eq!(r.overall, overall(10, 20));
    assert!(r.partitions.is_empty() && r.consumer_polls.is_empty() && r.producer_sends.is_empty());
}

#[test]
fn large_lag_is_a_warning_on_the_last_worst_partition() {
    let mut list = Vec::new();
    let partitions = vec![
        partition(0, 0, 1.0, 1.0, 0, 1500),
        partition(1, 0, 1.0, 1.0, 0, 2500),
        partition(2, 0, 1.0, 1.0, 0, 2500),
        partition(3, 0, 1.0, 1.0, 0, 10),
    ];
    DiagnosticReport::analyze_backlog(&partitions, &overall(0, 0), &mut list);
    assert_eq!(
        said(&list),
        one(
            "backlog",
            Severity::Warning,
            "High max lag: 2500 msgs (partition 2). Latency likely includes queue wait time."
        )
    );
}

#[test]
fn lag_of_a_thousand_is_not_yet_large() {
    let mut list = Vec::new();
    let partitions = vec![partition(0, 0, 1.0, 1.0, 0, 1000)];
    DiagnosticReport::analyze_backlog(&partitions, &overall(0, 0), &mut list);
    assert!(list.is_empty());
}

#[test]
fn queue_wait_is_estimated() {
    let mut list = Vec::new();
    let partitions = vec![
        partition(0, 0, 1.0, 3000.0, 60, 60),
        partition(1, 0, 1.0, 4001.0, 70, 70),
    ];
    DiagnosticReport::analyze_backlog(&partitions, &overall(50_000, 1001), &mut list);
    let rate = (3000.0_f64 + 4001.0) / 2.0;
    let wait = (130.0 / rate) * 1_000_000.0;
    assert_eq!(
        said(&list),
        one(
            "backlog",
            Severity::Info,
            &format!(
                "Queue wait estimate: {:.0}us (lag={} / rate={:.0}/s). This explains ~{:.0}% of p50 latency.",
                wait,
                130,
                rate,
                (wait / 50_000.0) * 100.0
            )
        )
    );
    assert_eq!(
        list[0].message,
        "Queue wait estimate: 37138us (lag=130 / rate=3500/s). This explains ~74% of p50 latency."
    );
}

#[test]
fn queue_wait_needs_lag_latency_and_consumption() {
    let busy = partition(0, 0, 1.0, 3000.0, 101, 0);
    let cases = vec![
        (vec![partition(0, 0, 1.0, 3000.0, 100, 0)], overall(10, 5000)),
        (vec![busy], overall(10, 1000)),
        (vec![partition(0, 0, 0.0, 0.0, 101, 0)], overall(10, 5000)),
        (vec![busy], overall(100_000, 100_000)),
    ];
    for (partitions, figures) in cases {
        let mut list = Vec::new();
        DiagnosticReport::analyze_backlog(&partitions, &figures, &mut list);
        assert!(list.is_empty());
    }
    let mut list = Vec::new();
    DiagnosticReport::analyze_backlog(&vec![busy], &overall(0, 5000), &mut list);
    assert_eq!(
        list[0].message,
        "Queue wait estimate: 33667us (lag=101 / rate=3000/s). This explains ~inf% of p50 latency."
    );
}

#[test]
fn partitions_that_fall_behind_are_named() {
    let mut list = Vec::new();
    let partitions = vec![
        partition(0, 101, 111.0, 100.0, 0, 0),
        partition(1, 100, 500.0, 100.0, 0, 0),
        partition(2, 101, 1.1 * 100.0, 100.0, 0, 0),
        partition(3, 101, 250.5, 0.0, 0, 0),
    ];
    DiagnosticReport::analyze_backlog(&partitions, &overall(0, 0), &mut list);
    let messages: Vec<&str> = list.iter().map(|o| o.message.as_str()).collect();
    assert_eq!(
        messages,
        vec![
            "Partition 0 falling behind: produce=111/s, consume=100/s",
            "Partition 3 falling behind: produce=250/s, consume=0/s",
        ]
    );
    assert!(list.iter().all(|o| o.category == "backlog" && o.severity == Severity::Warning));
}

#[test]
fn partition_imbalance_is_a_warning() {
    let mut list = Vec::new();
    let partitions = vec![partition(0, 0, 100.0, 0.0, 0, 0), partition(1, 0, 49.0, 0.0, 0, 0)];
    DiagnosticReport::analyze_imbalance(&partitions, &vec![], &vec![], &mut list);
    assert_eq!(
        said(&list),
        one(
            "imbalance",
            Severity::Warning,
            "Partition imbalance: min=49/s, max=100/s (ratio 2.0x)"
        )
    );
}

#[test]
fn idle_partition_counts_as_one_in_the_ratio() {
    let mut list = Vec::new();
    let partitions = vec![partition(0, 0, 0.0, 0.0, 0, 0), partition(1, 0, 64.25, 0.0, 0, 0)];
    DiagnosticReport::analyze_imbalance(&partitions, &vec![], &vec![], &mut list);
    assert_eq!(list[0].message, "Partition imbalance: min=0/s, max=64/s (ratio 64.2x)");
}

#[test]
fn even_rates_are_no_imbalance() {
    for rate in [0.0, 1.0, 12345.6, f64::MAX] {
        let mut list = Vec::new();
        let partitions = vec![partition(0, 0, rate, 0.0, 0, 0), partition(1, 0, rate, 0.0, 0, 0)];
        let polls = vec![poll(0, rate, 0.0, 1.0, 0, 0), poll(1, rate, 0.0, 1.0, 0, 0)];
        let sends = vec![send(0, rate, 1.0, 0), send(1, rate, 1.0, 0)];
        DiagnosticReport::analyze_imbalance(&partitions, &polls, &sends, &mut list);
        assert!(list.is_empty());
    }
    // A single actor is never uneven, and a half is not below a half.
    let mut list = Vec::new();
    let partitions = vec![partition(0, 0, 10.0, 0.0, 0, 0), partition(1, 0, 5.0, 0.0, 0, 0)];
    DiagnosticReport::analyze_imbalance(&partitions, &vec![], &vec![send(0, 5.0, 1.0, 0)], &mut list);
    assert!(list.is_empty());
}

#[test]
fn consumer_imbalance_is_a_warning() {
    let mut list = Vec::new();
    let polls = vec![poll(0, 100.0, 0.0, 2.0, 0, 0), poll(1, 59.0, 0.0, 1.0, 0, 0)];
    DiagnosticReport::analyze_imbalance(&vec![], &polls, &vec![], &mut list);
    assert_eq!(
        said(&list),
        one(
            "imbalance",
            Severity::Warning,
            "Consumer imbalance: some consumers processing 3.4x more than others"
        )
    );
}

#[test]
fn producer_variance_is_for_information() {
    let mut list = Vec::new();
    let sends = vec![send(0, 1000.0, 1.0, 0), send(1, 10.0, 1.0, 0), send(2, 900.0, 1.0, 0)];
    DiagnosticReport::analyze_imbalance(&vec![], &vec![], &sends, &mut list);
    assert_eq!(
        said(&list),
        one("imbalance", Severity::Info, "Producer rate variance: min=10/s, max=1000/s")
    );
}

#[test]
fn polling_in_vain_is_a_warning() {
    let mut list = Vec::new();
    let polls = vec![poll(3, 12360.0, 0.699, 20.0, 20, 0), poll(4, 100.0, 0.9, 20.0, 20, 0)];
    DiagnosticReport::analyze_poll_efficiency(&polls, &vec![], &mut list);
    assert_eq!(
        said(&list),
        one(
            "polling",
            Severity::Warning,
            "Consumer 3 has 70% empty polls at 12360 polls/s. Consider increasing poll_interval_us."
        )
    );
}

#[test]
fn small_batches_behind_a_lag_are_for_information() {
    let mut list = Vec::new();
    let polls = vec![
        poll(0, 10.0, 0.0, 1.25, 9, 0),
        poll(1, 10.0, 0.0, 5.0, 9, 0),
        poll(2, 10.0, 0.0, 1.0, 10, 0),
    ];
    let partitions = vec![partition(0, 0, 0.0, 0.0, 51, 0), partition(1, 0, 0.0, 0.0, 50, 0)];
    DiagnosticReport::analyze_poll_efficiency(&polls, &partitions, &mut list);
    assert_eq!(
        said(&list),
        one(
            "polling",
            Severity::Info,
            "Consumer 0 getting small batches (1.2 avg) despite lag=101. May indicate partition assignment issues."
        )
    );
}

#[test]
fn slow_polls_are_a_warning() {
    let mut list = Vec::new();
    let polls = vec![poll(0, 1.0, 0.0, 9.0, 9, 10_000), poll(6, 1.0, 0.0, 9.0, 9, 10_001)];
    DiagnosticReport::analyze_poll_efficiency(&polls, &vec![], &mut list);
    assert_eq!(
        said(&list),
        one(
            "polling",
            Severity::Warning,
            "Consumer 6 poll p99 latency is 10001us. Network or server delay."
        )
    );
}

#[test]
fn unused_batching_is_for_information() {
    let mut list = Vec::new();
    let sends = vec![send(0, 1.0, 1.0, 0), send(1, 1.0, 1.5, 0)];
    DiagnosticReport::analyze_send_efficiency(&sends, &config(100), &mut list);
    assert_eq!(
        said(&list),
        one(
            "batching",
            Severity::Info,
            "Producer 0 batch_size=100 but avg msgs/send=1.0. Batching not utilized."
        )
    );
    let mut list = Vec::new();
    DiagnosticReport::analyze_send_efficiency(&sends, &config(1), &mut list);
    assert!(list.is_empty());
}

#[test]
fn slow_sends_are_a_warning() {
    let mut list = Vec::new();
    let sends = vec![send(0, 1.0, 1.0, 5000), send(1, 1.0, 1.0, 5001)];
    DiagnosticReport::analyze_send_efficiency(&sends, &config(1), &mut list);
    assert_eq!(
        said(&list),
        one("send", Severity::Warning, "Producer 1 send p99=5001us. Network or server pressure.")
    );
}

#[test]
fn summary_names_the_backlog_first() {
    let partitions = vec![partition(0, 0, 100.0, 0.0, 0, 1001), partition(1, 0, 1.0, 0.0, 0, 0)];
    let r = DiagnosticReport::analyze(
        config(1),
        overall(10, 1001),
        partitions,
        vec![poll(0, 1.0, 0.0, 9.0, 9, 20_000)],
        vec![],
    );
    let order: Vec<&str> = r.observations.iter().map(|o| o.category.as_str()).collect();
    assert_eq!(order, vec!["backlog", "imbalance", "polling"]);
    assert_eq!(
        r.bottleneck_summary,
        "FIFO queue residence time (backlog). Messages wait in partition queues before consumption."
    );
}

#[test]
fn summary_names_imbalance_where_latency_is_low() {
    let partitions = vec![partition(0, 0, 100.0, 0.0, 0, 1001), partition(1, 0, 1.0, 0.0, 0, 0)];
    let r = DiagnosticReport::analyze(
        config(1),
        overall(10, 1000),
        partitions,
        vec![poll(0, 1.0, 0.0, 9.0, 9, 20_000)],
        vec![],
    );
    assert_eq!(
        r.bottleneck_summary,
        "Partition or consumer imbalance. Work not evenly distributed."
    );
}

#[test]
fn summary_names_polling() {
    let r = DiagnosticReport::analyze(
        config(1),
        overall(10, 5000),
        vec![],
        vec![poll(0, 200.0, 0.6, 9.0, 9, 0)],
        vec![],
    );
    assert_eq!(
        r.bottleneck_summary,
        "Consumer polling inefficiency. High empty poll rate or slow poll responses."
    );
}

#[test]
fn summary_names_the_network_where_lag_is_low() {
    let r = DiagnosticReport::analyze(
        config(1),
        overall(10, 1001),
        vec![partition(0, 0, 1.0, 1.0, 9, 9)],
        vec![],
        vec![],
    );
    assert_eq!(
        r.bottleneck_summary,
        "Broker/client/network latency. Low lag suggests not a backlog issue."
    );
    let r = DiagnosticReport::analyze(
        config(1),
        overall(10, 1001),
        vec![partition(0, 0, 1.0, 1.0, 10, 10)],
        vec![],
        vec![],
    );
    assert_eq!(r.bottleneck_summary, NO_BOTTLENECK);
}

#[test]
fn information_and_slow_sends_do_not_make_a_bottleneck() {
    let list = vec![
        DiagnosticObservation {
            category: "backlog".to_string(),
            severity: Severity::Info,
            message: String::new(),
        },
        DiagnosticObservation {
            category: "send".to_string(),
            severity: Severity::Warning,
            message: String::new(),
        },
        DiagnosticObservation {
            category: "polling".to_string(),
            severity: Severity::Critical,
            message: String::new(),
        },
    ];
    assert_eq!(
        DiagnosticReport::summarize_bottleneck(&list, &vec![], &overall(10, 20)),
        NO_BOTTLENECK
    );
}

#[test]
fn nothing_is_ever_critical() {
    let partitions = vec![
        partition(0, 500, 1000.0, 1.0, 5000, 9000),
        partition(1, 500, 10.0, 1.0, 5000, 9000),
    ];
    let polls = vec![poll(0, 1e6, 1.0, 0.0, 0, 1_000_000), poll(1, 1e6, 0.9, 3.0, 4, 1_000_000)];
    let sends = vec![send(0, 1e6, 1.0, 1_000_000), send(1, 1.0, 1.0, 1_000_000)];
    let r = DiagnosticReport::analyze(config(10), overall(1, 1_000_000), partitions, polls, sends);
    let severities: Vec<Severity> = r.observations.iter().map(|o| o.severity).collect();
    assert!(severities.iter().all(|s| *s != Severity::Critical));
    assert_eq!(r.observations.len(), 17);
}

#[test]
fn order_does_not_matter_to_imbalance() {
    let mut partitions = vec![
        partition(0, 0, 0.0, 0.0, 0, 0),
        partition(1, 0, 71.5, 0.0, 0, 0),
        partition(2, 0, 40.0, 0.0, 0, 0),
    ];
    let mut polls = vec![
        poll(0, 100.0, 0.0, 2.0, 0, 0),
        poll(1, 5.0, 0.0, 1.0, 0, 0),
        poll(2, 90.0, 0.0, 2.0, 0, 0),
    ];
    let mut sends = vec![send(0, 9.0, 1.0, 0), send(1, 2.0, 1.0, 0), send(2, 8.0, 1.0, 0)];
    let mut first = Vec::new();
    DiagnosticReport::analyze_imbalance(&partitions, &polls, &sends, &mut first);
    assert_eq!(first.len(), 3);
    for _ in 0..3 {
        partitions.rotate_left(1);
        polls.rotate_right(1);
        sends.reverse();
        let mut list = Vec::new();
        DiagnosticReport::analyze_imbalance(&partitions, &polls, &sends, &mut list);
        assert_eq!(said(&list), said(&first));
    }
}

#[test]
fn zeros_of_both_signs_are_even() {
    let mut list = Vec::new();
    let partitions = vec![partition(0, 0, 0.0, 0.0, 0, 0), partition(1, 0, -0.0, 0.0, 0, 0)];
    DiagnosticReport::analyze_imbalance(&partitions, &vec![], &vec![], &mut list);
    assert!(list.is_empty());
}
