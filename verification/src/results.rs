//! What a run says when it is over: the results of producers and consumers.
use vstd::prelude::*;
use vstd::string::*;
use crate::binary64::{of_integer, quotient, Binary64};
use vstd::multiset::Multiset;
use crate::histogram::{
    bucket_ceiling, counted, highest_counted, is_maximum, is_top, law_bucket_precision,
    nothing_counted, recorded, standard, SampleHistogram,
};
use crate::lines::{
    add_count, add_line, add_text, fixed0_text, labelled, labelled_in, text_lines,
};
use crate::report::OverallMetrics;
use crate::stats::Quantiles;
use crate::text::{
    bracketed, decimal, decimal_text, fixed0, push_bracketed, push_decimal, push_fixed0,
};
use crate::tracker::{per_second, rate};

verus! {

/// What a latency histogram reads.
#[derive(Clone, Copy, Debug, PartialEq, Eq, Structural)]
pub struct LatencyReading {
    pub p50: u64,
    pub p90: u64,
    pub p99: u64,
    pub p999: u64,
    pub mean: Binary64,
}

/// A latency histogram in one line.
pub open spec fn latency_summary(label: Seq<char>, l: LatencyReading) -> Seq<char> {
    label + " (us): p50="@ + decimal(l.p50 as nat) + " p99="@ + decimal(l.p99 as nat)
        + " p999="@ + decimal(l.p999 as nat) + " avg="@ + fixed0(l.mean)
}

fn latency_summary_line(label: &str, l: LatencyReading) -> (r: String)
    ensures
        r@ == latency_summary(label@, l),
{
    let mut s: String = label.to_string();
    s.append(" (us): p50=");
    push_decimal(&mut s, l.p50 as u128);
    s.append(" p99=");
    push_decimal(&mut s, l.p99 as u128);
    s.append(" p999=");
    push_decimal(&mut s, l.p999 as u128);
    s.append(" avg=");
    push_fixed0(&mut s, l.mean);
    s
}

/// A latency histogram in at most one line: none where nothing was counted.
pub open spec fn histogram_lines(
    h: SampleHistogram,
    label: Seq<char>,
    l: LatencyReading,
) -> Seq<Seq<char>> {
    if recorded(h).len() == 0 {
        Seq::empty()
    } else {
        seq![latency_summary(label, l)]
    }
}

/// Adds a latency histogram, where anything was counted.
fn add_histogram(lines: &mut Vec<String>, h: &SampleHistogram, label: &str, l: LatencyReading)
    ensures
        text_lines(final(lines)@) == text_lines(old(lines)@) + histogram_lines(*h, label@, l),
{
    let ghost start = text_lines(lines@);
    if !nothing_counted(h) {
        add_line(lines, latency_summary_line(label, l));
    }
    assert(text_lines(lines@) =~= start + histogram_lines(*h, label@, l));
}

/// Messages per second over a whole run.
pub open spec fn throughput(messages: u64, elapsed_secs: Binary64) -> Binary64 {
    quotient(of_integer(messages as nat), elapsed_secs)
}

/// Messages per second over a whole run.
pub fn run_throughput(messages: u64, elapsed_secs: Binary64) -> (r: Binary64)
    ensures
        r == throughput(messages, elapsed_secs),
{
    Binary64::from_u64(messages).over(elapsed_secs)
}

/// How many messages were produced, and in what time.
pub open spec fn producer_total(messages: u64, elapsed: Seq<char>) -> Seq<char> {
    "Produced: "@ + decimal(messages as nat) + " msgs in "@ + elapsed
}

fn producer_total_line(messages: u64, elapsed: &str) -> (r: String)
    ensures
        r@ == producer_total(messages, elapsed@),
{
    let mut s: String = "Produced: ".to_string();
    push_decimal(&mut s, messages as u128);
    s.append(" msgs in ");
    s.append(elapsed);
    s
}

/// How many messages were consumed, and in what time.
pub open spec fn consumer_total(messages: u64, elapsed: Seq<char>) -> Seq<char> {
    "Consumed: "@ + decimal(messages as nat) + " msgs in "@ + elapsed
}

fn consumer_total_line(messages: u64, elapsed: &str) -> (r: String)
    ensures
        r@ == consumer_total(messages, elapsed@),
{
    let mut s: String = "Consumed: ".to_string();
    push_decimal(&mut s, messages as u128);
    s.append(" msgs in ");
    s.append(elapsed);
    s
}

/// The results of the producers; the time in words comes with the time in seconds.
pub open spec fn producer_result_lines(
    messages: u64,
    elapsed_secs: Binary64,
    elapsed: Seq<char>,
    h: SampleHistogram,
    l: LatencyReading,
) -> Seq<Seq<char>> {
    seq![
        ""@,
        "=== Producer Results ==="@,
        producer_total(messages, elapsed),
        "Producer throughput: "@ + fixed0(throughput(messages, elapsed_secs)) + " msg/s"@,
    ] + histogram_lines(h, "Send latency"@, l)
}

/// The results of the producers; the time in words comes with the time in seconds.
pub fn describe_producer_results(
    messages: u64,
    elapsed_secs: Binary64,
    elapsed: &str,
    h: &SampleHistogram,
    l: LatencyReading,
) -> (r: Vec<String>)
    ensures
        text_lines(r@) == producer_result_lines(messages, elapsed_secs, elapsed@, *h, l),
{
    let mut lines: Vec<String> = Vec::new();
    add_text(&mut lines, "");
    add_text(&mut lines, "=== Producer Results ===");
    add_line(&mut lines, producer_total_line(messages, elapsed));
    let speed: String = fixed0_text(run_throughput(messages, elapsed_secs));
    add_line(&mut lines, labelled_in("Producer throughput: ", speed.as_str(), " msg/s"));
    add_histogram(&mut lines, h, "Send latency", l);
    assert(text_lines(lines@) =~= producer_result_lines(messages, elapsed_secs, elapsed@, *h, l));
    lines
}

/// What a histogram gives besides quantiles: how many values it has counted, and the highest.
pub open spec fn gives(h: SampleHistogram, samples: u64, max: u64) -> bool {
    &&& recorded(h).len() <= u64::MAX ==> samples == recorded(h).len()
    &&& is_maximum(max, recorded(h))
}

/// A latency histogram in detail, with its number of samples and its maximum; nothing where
/// nothing was counted.
pub open spec fn latency_detail_lines(
    h: SampleHistogram,
    l: LatencyReading,
    samples: u64,
    max: u64,
) -> Seq<Seq<char>> {
    if recorded(h).len() == 0 {
        Seq::empty()
    } else {
        seq![
            ""@,
            "Latency (us) - "@ + decimal(samples as nat) + " samples:"@,
            "  p50:   "@ + decimal(l.p50 as nat),
            "  p90:   "@ + decimal(l.p90 as nat),
            "  p99:   "@ + decimal(l.p99 as nat),
            "  p999:  "@ + decimal(l.p999 as nat),
            "  max:   "@ + decimal(max as nat),
            "  avg:   "@ + fixed0(l.mean),
        ]
    }
}

/// The results of the consumers, with the number of samples of the histogram and its maximum.
pub open spec fn consumer_result_lines(
    messages: u64,
    elapsed_secs: Binary64,
    elapsed: Seq<char>,
    h: SampleHistogram,
    l: LatencyReading,
    samples: u64,
    max: u64,
) -> Seq<Seq<char>> {
    seq![
        ""@,
        "=== Consumer Results ==="@,
        consumer_total(messages, elapsed),
        "Consumer throughput: "@ + fixed0(throughput(messages, elapsed_secs)) + " msg/s"@,
    ] + latency_detail_lines(h, l, samples, max)
}

/// The results of the consumers; the time in words comes with the time in seconds.
pub fn describe_consumer_results(
    messages: u64,
    elapsed_secs: Binary64,
    elapsed: &str,
    h: &SampleHistogram,
    l: LatencyReading,
) -> (r: Vec<String>)
    requires
        standard(*h),
    ensures
        exists|samples: u64, max: u64| #[trigger]
            gives(*h, samples, max) && text_lines(r@) == consumer_result_lines(
                messages,
                elapsed_secs,
                elapsed@,
                *h,
                l,
                samples,
                max,
            ),
{
    let mut lines: Vec<String> = Vec::new();
    let samples: u64 = counted(h);
    let max: u64 = highest_counted(h);
    add_text(&mut lines, "");
    add_text(&mut lines, "=== Consumer Results ===");
    add_line(&mut lines, consumer_total_line(messages, elapsed));
    let speed: String = fixed0_text(run_throughput(messages, elapsed_secs));
    add_line(&mut lines, labelled_in("Consumer throughput: ", speed.as_str(), " msg/s"));
    if !nothing_counted(h) {
        add_text(&mut lines, "");
        let count: String = decimal_text(samples as u128);
        add_line(&mut lines, labelled_in("Latency (us) - ", count.as_str(), " samples:"));
        add_count(&mut lines, "  p50:   ", l.p50 as u128);
        add_count(&mut lines, "  p90:   ", l.p90 as u128);
        add_count(&mut lines, "  p99:   ", l.p99 as u128);
        add_count(&mut lines, "  p999:  ", l.p999 as u128);
        add_count(&mut lines, "  max:   ", max as u128);
        add_line(&mut lines, labelled("  avg:   ", fixed0_text(l.mean).as_str()));
    }
    assert(text_lines(lines@) =~= consumer_result_lines(
        messages,
        elapsed_secs,
        elapsed@,
        *h,
        l,
        samples,
        max,
    ));
    assert(gives(*h, samples, max));
    lines
}

/// What the consumers did together; the latency where any was counted.
#[derive(Clone, Copy, Debug, PartialEq, Eq, Structural)]
pub struct ConsumerTotals {
    pub messages: u64,
    pub elapsed_secs: Binary64,
    pub latency: Option<LatencyReading>,
}

/// What a histogram reads, where it has counted anything.
pub open spec fn reading(h: SampleHistogram, l: LatencyReading) -> Option<LatencyReading> {
    if recorded(h).len() == 0 {
        None
    } else {
        Some(l)
    }
}

/// What the consumers did together, given what their histogram reads.
pub fn total_consumers(
    messages: u64,
    elapsed_secs: Binary64,
    h: &SampleHistogram,
    l: LatencyReading,
) -> (r: ConsumerTotals)
    ensures
        r == (ConsumerTotals { messages, elapsed_secs, latency: reading(*h, l) }),
{
    let latency: Option<LatencyReading> = if nothing_counted(h) { None } else { Some(l) };
    ConsumerTotals { messages, elapsed_secs, latency }
}

/// The figures of the whole run; those of the consumers are zero where there were none, and
/// their latencies where nothing was counted.
pub open spec fn metrics_of(
    elapsed_secs: Binary64,
    produced: u64,
    producer_secs: Binary64,
    producers: LatencyReading,
    consumers: Option<ConsumerTotals>,
) -> OverallMetrics {
    OverallMetrics {
        elapsed_secs,
        producer_throughput: throughput(produced, producer_secs),
        consumer_throughput: match consumers {
            Some(c) => throughput(c.messages, c.elapsed_secs),
            None => Binary64 { bits: 0 },
        },
        producer_p50_us: producers.p50,
        producer_p99_us: producers.p99,
        consumer_p50_us: consumer_latency(consumers).p50,
        consumer_p99_us: consumer_latency(consumers).p99,
        consumer_p999_us: consumer_latency(consumers).p999,
    }
}

/// The latencies of the consumers, zero where there are none.
pub open spec fn consumer_latency(consumers: Option<ConsumerTotals>) -> Quantiles {
    match consumers {
        Some(ConsumerTotals { latency: Some(l), .. }) => Quantiles {
            p50: l.p50,
            p99: l.p99,
            p999: l.p999,
        },
        _ => Quantiles { p50: 0, p99: 0, p999: 0 },
    }
}

/// The figures of the whole run.
pub fn overall_metrics(
    elapsed_secs: Binary64,
    produced: u64,
    producer_secs: Binary64,
    producers: LatencyReading,
    consumers: Option<ConsumerTotals>,
) -> (r: OverallMetrics)
    ensures
        r == metrics_of(elapsed_secs, produced, producer_secs, producers, consumers),
{
    let mut latency: Quantiles = Quantiles { p50: 0, p99: 0, p999: 0 };
    let mut consumer_throughput: Binary64 = Binary64 { bits: 0 };
    if let Some(c) = consumers {
        consumer_throughput = run_throughput(c.messages, c.elapsed_secs);
        if let Some(l) = c.latency {
            latency = Quantiles { p50: l.p50, p99: l.p99, p999: l.p999 };
        }
    }
    OverallMetrics {
        elapsed_secs,
        producer_throughput: run_throughput(produced, producer_secs),
        consumer_throughput,
        producer_p50_us: producers.p50,
        producer_p99_us: producers.p99,
        consumer_p50_us: latency.p50,
        consumer_p99_us: latency.p99,
        consumer_p999_us: latency.p999,
    }
}

/// What one producer or consumer did; the latency where any was counted.
pub struct ActorSummary {
    pub id: usize,
    pub messages: u64,
    pub elapsed_secs: Binary64,
    pub partitions: Vec<u32>,
    pub latency: Option<Quantiles>,
}

/// What one producer or consumer did, given what its histogram reads.
pub fn summarize_actor(
    id: usize,
    messages: u64,
    elapsed_secs: Binary64,
    partitions: Vec<u32>,
    h: &SampleHistogram,
    q: Quantiles,
) -> (r: ActorSummary)
    ensures
        r.id == id,
        r.messages == messages,
        r.elapsed_secs == elapsed_secs,
        r.partitions == partitions,
        r.latency == if recorded(*h).len() == 0 {
            None::<Quantiles>
        } else {
            Some(q)
        },
{
    let latency: Option<Quantiles> = if nothing_counted(h) { None } else { Some(q) };
    ActorSummary { id, messages, elapsed_secs, partitions, latency }
}

/// The latency of one actor.
pub open spec fn actor_latency(q: Quantiles) -> Seq<char> {
    "    latency (us): p50="@ + decimal(q.p50 as nat) + " p99="@ + decimal(q.p99 as nat)
        + " p999="@ + decimal(q.p999 as nat)
}

fn actor_latency_line(q: Quantiles) -> (r: String)
    ensures
        r@ == actor_latency(q),
{
    let mut s: String = "    latency (us): p50=".to_string();
    push_decimal(&mut s, q.p50 as u128);
    s.append(" p99=");
    push_decimal(&mut s, q.p99 as u128);
    s.append(" p999=");
    push_decimal(&mut s, q.p999 as u128);
    s
}

/// One producer.
pub open spec fn producer_row(a: ActorSummary) -> Seq<char> {
    "  Producer "@ + decimal(a.id as nat) + ": "@ + decimal(a.messages as nat) + " msgs, "@
        + fixed0(throughput(a.messages, a.elapsed_secs)) + " msg/s, partitions "@
        + bracketed(a.partitions@)
}

fn producer_row_line(a: &ActorSummary) -> (r: String)
    ensures
        r@ == producer_row(*a),
{
    let mut s: String = "  Producer ".to_string();
    push_decimal(&mut s, a.id as u128);
    s.append(": ");
    push_decimal(&mut s, a.messages as u128);
    s.append(" msgs, ");
    push_fixed0(&mut s, run_throughput(a.messages, a.elapsed_secs));
    s.append(" msg/s, partitions ");
    push_bracketed(&mut s, &a.partitions);
    s
}

/// One consumer that got nothing.
pub open spec fn idle_row(a: ActorSummary) -> Seq<char> {
    "  Consumer "@ + decimal(a.id as nat) + ": IDLE - 0 msgs, partitions seen: "@
        + bracketed(a.partitions@)
}

fn idle_row_line(a: &ActorSummary) -> (r: String)
    ensures
        r@ == idle_row(*a),
{
    let mut s: String = "  Consumer ".to_string();
    push_decimal(&mut s, a.id as u128);
    s.append(": IDLE - 0 msgs, partitions seen: ");
    push_bracketed(&mut s, &a.partitions);
    s
}

/// One consumer that got messages.
pub open spec fn consumer_row(a: ActorSummary) -> Seq<char> {
    "  Consumer "@ + decimal(a.id as nat) + ": "@ + decimal(a.messages as nat) + " msgs, "@
        + fixed0(rate(a.messages, a.elapsed_secs)) + " msg/s, partitions "@
        + bracketed(a.partitions@)
}

fn consumer_row_line(a: &ActorSummary) -> (r: String)
    ensures
        r@ == consumer_row(*a),
{
    let mut s: String = "  Consumer ".to_string();
    push_decimal(&mut s, a.id as u128);
    s.append(": ");
    push_decimal(&mut s, a.messages as u128);
    s.append(" msgs, ");
    push_fixed0(&mut s, per_second(a.messages, a.elapsed_secs));
    s.append(" msg/s, partitions ");
    push_bracketed(&mut s, &a.partitions);
    s
}

/// How many consumers got nothing.
pub open spec fn idle_warning(idle: nat, consumers: nat) -> Seq<char> {
    "WARNING: "@ + decimal(idle as nat) + " of "@ + decimal(consumers as nat)
        + " consumers were idle!"@
}

fn idle_warning_line(idle: usize, consumers: usize) -> (r: String)
    ensures
        r@ == idle_warning(idle as nat, consumers as nat),
{
    let mut s: String = "WARNING: ".to_string();
    push_decimal(&mut s, idle as u128);
    s.append(" of ");
    push_decimal(&mut s, consumers as u128);
    s.append(" consumers were idle!");
    s
}

/// The latency line of an actor, where it has one.
pub open spec fn actor_latency_lines(a: ActorSummary) -> Seq<Seq<char>> {
    match a.latency {
        Some(q) => seq![actor_latency(q)],
        None => Seq::empty(),
    }
}

/// The lines of one producer.
pub open spec fn producer_lines(a: ActorSummary) -> Seq<Seq<char>> {
    seq![producer_row(a)] + actor_latency_lines(a)
}

/// The lines of one consumer.
pub open spec fn consumer_lines(a: ActorSummary) -> Seq<Seq<char>> {
    if a.messages == 0 {
        seq![idle_row(a)]
    } else {
        seq![consumer_row(a)] + actor_latency_lines(a)
    }
}

/// The lines of all producers.
pub open spec fn all_producer_lines(list: Seq<ActorSummary>) -> Seq<Seq<char>>
    decreases list.len(),
{
    if list.len() == 0 {
        Seq::empty()
    } else {
        all_producer_lines(list.drop_last()) + producer_lines(list.last())
    }
}

/// The lines of all consumers.
pub open spec fn all_consumer_lines(list: Seq<ActorSummary>) -> Seq<Seq<char>>
    decreases list.len(),
{
    if list.len() == 0 {
        Seq::empty()
    } else {
        all_consumer_lines(list.drop_last()) + consumer_lines(list.last())
    }
}

/// The number of actors that handled no message.
pub open spec fn idle_count(list: Seq<ActorSummary>) -> nat
    decreases list.len(),
{
    if list.len() == 0 {
        0
    } else {
        idle_count(list.drop_last()) + if list.last().messages == 0 {
            1nat
        } else {
            0
        }
    }
}

/// The producers one by one; nothing without producers.
pub open spec fn per_producer_lines(list: Seq<ActorSummary>) -> Seq<Seq<char>> {
    if list.len() == 0 {
        Seq::empty()
    } else {
        seq![""@, "--- Per-Producer Stats ---"@] + all_producer_lines(list)
    }
}

/// The consumers one by one, with a warning where some were idle; nothing without consumers.
pub open spec fn per_consumer_lines(list: Seq<ActorSummary>) -> Seq<Seq<char>> {
    let warning = if idle_count(list) > 0 {
        seq![
            ""@,
            idle_warning(idle_count(list), list.len()),
            "This suggests consumer group partition assignment is not distributing load."@,
        ]
    } else {
        Seq::empty()
    };
    if list.len() == 0 {
        Seq::empty()
    } else {
        seq![""@, "--- Per-Consumer Stats ---"@] + all_consumer_lines(list) + warning
    }
}

fn add_actor_latency(lines: &mut Vec<String>, a: &ActorSummary)
    ensures
        text_lines(final(lines)@) == text_lines(old(lines)@) + actor_latency_lines(*a),
{
    let ghost start = text_lines(lines@);
    if let Some(q) = a.latency {
        add_line(lines, actor_latency_line(q));
    }
    assert(text_lines(lines@) =~= start + actor_latency_lines(*a));
}

/// The producers one by one.
pub fn describe_producers(list: &Vec<ActorSummary>) -> (r: Vec<String>)
    ensures
        text_lines(r@) == per_producer_lines(list@),
{
    let mut lines: Vec<String> = Vec::new();
    if list.len() == 0 {
        assert(text_lines(lines@) =~= per_producer_lines(list@));
        return lines;
    }
    add_text(&mut lines, "");
    add_text(&mut lines, "--- Per-Producer Stats ---");
    let ghost head = text_lines(lines@);
    let mut i: usize = 0;
    assert(list@.take(0).len() == 0);
    assert(head =~= head + all_producer_lines(list@.take(0)));
    while i < list.len()
        invariant
            i <= list@.len(),
            text_lines(lines@) == head + all_producer_lines(list@.take(i as int)),
        decreases list@.len() - i,
    {
        proof {
            let next = list@.take(i + 1);
            assert(next.drop_last() =~= list@.take(i as int));
            assert(next.last() == list@[i as int]);
        }
        add_line(&mut lines, producer_row_line(&list[i]));
        add_actor_latency(&mut lines, &list[i]);
        i = i + 1;
        assert(text_lines(lines@) =~= head + all_producer_lines(list@.take(i as int)));
    }
    assert(list@.take(list@.len() as int) =~= list@);
    assert(text_lines(lines@) =~= per_producer_lines(list@));
    lines
}

/// The consumers one by one, with a warning where some were idle.
pub fn describe_consumers(list: &Vec<ActorSummary>) -> (r: Vec<String>)
    ensures
        text_lines(r@) == per_consumer_lines(list@),
{
    let mut lines: Vec<String> = Vec::new();
    if list.len() == 0 {
        assert(text_lines(lines@) =~= per_consumer_lines(list@));
        return lines;
    }
    add_text(&mut lines, "");
    add_text(&mut lines, "--- Per-Consumer Stats ---");
    let ghost head = text_lines(lines@);
    let mut idle: usize = 0;
    let mut i: usize = 0;
    assert(list@.take(0).len() == 0);
    assert(head =~= head + all_consumer_lines(list@.take(0)));
    while i < list.len()
        invariant
            i <= list@.len(),
            idle <= i,
            idle == idle_count(list@.take(i as int)),
            text_lines(lines@) == head + all_consumer_lines(list@.take(i as int)),
        decreases list@.len() - i,
    {
        proof {
            let next = list@.take(i + 1);
            assert(next.drop_last() =~= list@.take(i as int));
            assert(next.last() == list@[i as int]);
        }
        if list[i].messages == 0 {
            idle = idle + 1;
            add_line(&mut lines, idle_row_line(&list[i]));
        } else {
            add_line(&mut lines, consumer_row_line(&list[i]));
            add_actor_latency(&mut lines, &list[i]);
        }
        i = i + 1;
        assert(text_lines(lines@) =~= head + all_consumer_lines(list@.take(i as int)));
    }
    assert(list@.take(list@.len() as int) =~= list@);
    if idle > 0 {
        add_text(&mut lines, "");
        add_line(&mut lines, idle_warning_line(idle, list.len()));
        add_text(
            &mut lines,
            "This suggests consumer group partition assignment is not distributing load.",
        );
    }
    assert(text_lines(lines@) =~= per_consumer_lines(list@));
    lines
}

/// What a histogram gives besides quantiles fits what it has counted: as many samples, and a
/// maximum that no value lies above, but for the last of all, and that is in the bucket of one of
/// them.
pub proof fn law_samples_and_maximum_fit(h: SampleHistogram, samples: u64, max: u64)
    requires
        gives(h, samples, max),
    ensures
        recorded(h).len() <= u64::MAX ==> samples == recorded(h).len(),
        recorded(h).len() == 0 ==> max == 0,
        forall|v: u64| #[trigger] recorded(h).contains(v) ==> v <= max || v == u64::MAX,
        recorded(h).len() > 0 ==> exists|v: u64| #[trigger]
            recorded(h).contains(v) && max <= bucket_ceiling(v as nat),
{
    let counted = recorded(h);
    broadcast use vstd::multiset::group_multiset_axioms;

    if counted.len() > 0 {
        let v = choose|v: u64|
            {
                &&& #[trigger] counted.contains(v)
                &&& is_top(counted, v)
                &&& max == bucket_ceiling(v as nat) || (bucket_ceiling(v as nat) == u64::MAX && max
                    == u64::MAX - 1)
            };
        law_bucket_precision(v as nat);
        assert(counted.contains(v) && max <= bucket_ceiling(v as nat));
    } else {
        assert(counted =~= Multiset::empty());
    }
}

} // verus!
