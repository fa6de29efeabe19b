//! The diagnostic report and the rules that derive it.
use vstd::prelude::*;
use vstd::string::*;
use vstd::arithmetic::power2::lemma_pow2_pos;
use crate::binary64::{
    greater_of, law_share_is_at_most_one, law_share_of_a_number_is_not_above_it,
    law_small_integers_are_exact, less, lesser_of, of_integer, product, quotient, total, Binary64,
    SIGN,
};
use crate::rounding::{lemma_units_monotone, units};
use crate::stats::{ConsumerPollSnapshot, ProducerSendSnapshot};
use crate::text::{decimal, fixed0, fixed1, push_decimal, push_fixed0, push_fixed1};
use crate::tracker::{larger, PartitionSnapshot};

verus! {

/// How much an observation matters.
#[derive(Clone, Copy, Debug, PartialEq, Eq, Structural)]
pub enum Severity {
    Info,
    Warning,
    Critical,
}

/// Diagnostic observations derived from metrics.
#[derive(Clone, Debug)]
pub struct DiagnosticObservation {
    pub category: String,
    pub severity: Severity,
    pub message: String,
}

/// What an observation says.
pub struct Observation {
    pub category: Seq<char>,
    pub severity: Severity,
    pub message: Seq<char>,
}

impl View for DiagnosticObservation {
    type V = Observation;

    open spec fn view(&self) -> Observation {
        Observation {
            category: self.category@,
            severity: self.severity,
            message: self.message@,
        }
    }
}

/// What a list of observations says.
pub open spec fn said(list: Seq<DiagnosticObservation>) -> Seq<Observation> {
    Seq::new(list.len(), |i: int| list[i]@)
}

/// How the benchmark was run.
#[derive(Clone, Copy, Debug, PartialEq, Eq, Structural)]
pub struct BenchmarkConfig {
    pub producers: usize,
    pub consumers: usize,
    pub partitions: u32,
    pub redundancy: u32,
    pub messages: u64,
    pub message_size: usize,
    pub batch_size: u32,
    pub poll_interval_us: u64,
    pub balanced: bool,
    pub producer_only: bool,
}

/// The figures of the whole run.
#[derive(Clone, Copy, Debug, PartialEq, Eq, Structural)]
pub struct OverallMetrics {
    pub elapsed_secs: Binary64,
    pub producer_throughput: Binary64,
    pub consumer_throughput: Binary64,
    pub producer_p50_us: u64,
    pub producer_p99_us: u64,
    pub consumer_p50_us: u64,
    pub consumer_p99_us: u64,
    pub consumer_p999_us: u64,
}

/// Full diagnostic report.
#[derive(Clone, Debug)]
pub struct DiagnosticReport {
    pub config: BenchmarkConfig,
    pub overall: OverallMetrics,
    pub partitions: Vec<PartitionSnapshot>,
    pub consumer_polls: Vec<ConsumerPollSnapshot>,
    pub producer_sends: Vec<ProducerSendSnapshot>,
    pub observations: Vec<DiagnosticObservation>,
    pub bottleneck_summary: String,
}

/// The number `n / d`.
pub open spec fn fraction(n: nat, d: nat) -> Binary64 {
    quotient(of_integer(n), of_integer(d))
}

fn fraction_of(n: u64, d: u64) -> (r: Binary64)
    ensures
        r == fraction(n as nat, d as nat),
{
    Binary64::from_u64(n).over(Binary64::from_u64(d))
}

/// The bits of the largest finite number.
pub const LARGEST: u64 = 0x7fef_ffff_ffff_ffff;

/// The lag of all partitions together.
pub open spec fn total_lag(partitions: Seq<PartitionSnapshot>) -> nat
    decreases partitions.len(),
{
    if partitions.len() == 0 {
        0
    } else {
        total_lag(partitions.drop_last()) + partitions.last().current_lag as nat
    }
}

/// The largest lag that any partition has had; zero without partitions.
pub open spec fn worst_lag(partitions: Seq<PartitionSnapshot>) -> u64
    decreases partitions.len(),
{
    if partitions.len() == 0 {
        0
    } else {
        larger(worst_lag(partitions.drop_last()), partitions.last().max_lag)
    }
}

/// The last of the partitions that have had the largest lag; zero without partitions.
pub open spec fn worst_partition(partitions: Seq<PartitionSnapshot>) -> u32
    decreases partitions.len(),
{
    if partitions.len() == 0 {
        0
    } else if partitions.last().max_lag >= worst_lag(partitions.drop_last()) {
        partitions.last().partition_id
    } else {
        worst_partition(partitions.drop_last())
    }
}

/// The messages per second that all partitions together were read at.
pub open spec fn total_consumed_per_sec(partitions: Seq<PartitionSnapshot>) -> Binary64
    decreases partitions.len(),
{
    if partitions.len() == 0 {
        Binary64 { bits: 0 }
    } else {
        total(
            total_consumed_per_sec(partitions.drop_last()),
            partitions.last().consumed_per_sec,
        )
    }
}

/// The messages per second that a partition was read at, on average.
pub open spec fn mean_consumed_per_sec(partitions: Seq<PartitionSnapshot>) -> Binary64 {
    quotient(
        total_consumed_per_sec(partitions),
        of_integer(if partitions.len() < 1 { 1 } else { partitions.len() }),
    )
}

/// How long a message waits behind the present lag, in microseconds.
pub open spec fn queue_wait_us(partitions: Seq<PartitionSnapshot>) -> Binary64 {
    product(
        quotient(of_integer(total_lag(partitions)), mean_consumed_per_sec(partitions)),
        of_integer(1_000_000),
    )
}

/// Whether a partition is written to clearly faster than it is read.
pub open spec fn falls_behind(p: PartitionSnapshot) -> bool {
    less(product(p.consumed_per_sec, fraction(11, 10)), p.produced_per_sec) && p.produced_count
        > 100
}

/// Whether the lag explains a good part of the latency.
pub open spec fn waits_in_queue(
    partitions: Seq<PartitionSnapshot>,
    overall: OverallMetrics,
) -> bool {
    &&& total_lag(partitions) > 100
    &&& overall.consumer_p99_us > 1000
    &&& less(Binary64 { bits: 0 }, mean_consumed_per_sec(partitions))
    &&& less(
        product(of_integer(overall.consumer_p50_us as nat), fraction(1, 2)),
        queue_wait_us(partitions),
    )
}

/// The observation that some partition has had a large lag.
pub open spec fn worst_lag_observation(partitions: Seq<PartitionSnapshot>) -> Observation {
    Observation {
        category: "backlog"@,
        severity: Severity::Warning,
        message: "High max lag: "@ + decimal(worst_lag(partitions) as nat) + " msgs (partition "@
            + decimal(worst_partition(partitions) as nat)
            + "). Latency likely includes queue wait time."@,
    }
}

/// The observation that messages wait in the queues.
pub open spec fn queue_wait_observation(
    partitions: Seq<PartitionSnapshot>,
    overall: OverallMetrics,
) -> Observation {
    Observation {
        category: "backlog"@,
        severity: Severity::Info,
        message: "Queue wait estimate: "@ + fixed0(queue_wait_us(partitions)) + "us (lag="@
            + decimal(total_lag(partitions)) + " / rate="@ + fixed0(
            mean_consumed_per_sec(partitions),
        ) + "/s). This explains ~"@ + fixed0(
            product(
                quotient(
                    queue_wait_us(partitions),
                    of_integer(overall.consumer_p50_us as nat),
                ),
                of_integer(100),
            ),
        ) + "% of p50 latency."@,
    }
}

/// The observation that a partition falls behind.
pub open spec fn falls_behind_observation(p: PartitionSnapshot) -> Observation {
    Observation {
        category: "backlog"@,
        severity: Severity::Warning,
        message: "Partition "@ + decimal(p.partition_id as nat) + " falling behind: produce="@
            + fixed0(p.produced_per_sec) + "/s, consume="@ + fixed0(p.consumed_per_sec) + "/s"@,
    }
}

/// One observation for each partition that falls behind, in their order.
pub open spec fn falls_behind_observations(partitions: Seq<PartitionSnapshot>) -> Seq<Observation>
    decreases partitions.len(),
{
    if partitions.len() == 0 {
        Seq::empty()
    } else {
        let earlier = falls_behind_observations(partitions.drop_last());
        if falls_behind(partitions.last()) {
            earlier.push(falls_behind_observation(partitions.last()))
        } else {
            earlier
        }
    }
}

/// All observations on backlog.
pub open spec fn backlog_observations(
    partitions: Seq<PartitionSnapshot>,
    overall: OverallMetrics,
) -> Seq<Observation> {
    let lag = if worst_lag(partitions) > 1000 {
        seq![worst_lag_observation(partitions)]
    } else {
        Seq::empty()
    };
    let wait = if waits_in_queue(partitions, overall) {
        seq![queue_wait_observation(partitions, overall)]
    } else {
        Seq::empty()
    };
    lag + wait + falls_behind_observations(partitions)
}

/// The messages per second that were written to each partition.
pub open spec fn produced_rates(partitions: Seq<PartitionSnapshot>) -> Seq<Binary64> {
    Seq::new(partitions.len(), |i: int| partitions[i].produced_per_sec)
}

/// The messages per second that each consumer took.
pub open spec fn consumed_rates(polls: Seq<ConsumerPollSnapshot>) -> Seq<Binary64> {
    Seq::new(
        polls.len(),
        |i: int| product(polls[i].messages_per_poll_avg, polls[i].polls_per_sec),
    )
}

/// The sends per second of each producer.
pub open spec fn send_rates(sends: Seq<ProducerSendSnapshot>) -> Seq<Binary64> {
    Seq::new(sends.len(), |i: int| sends[i].sends_per_sec)
}

/// The greatest of some rates, but at least zero.
pub open spec fn peak(rates: Seq<Binary64>) -> Binary64
    decreases rates.len(),
{
    if rates.len() == 0 {
        Binary64 { bits: 0 }
    } else {
        greater_of(peak(rates.drop_last()), rates.last())
    }
}

/// The least of some rates, but at most the largest finite number.
pub open spec fn trough(rates: Seq<Binary64>) -> Binary64
    decreases rates.len(),
{
    if rates.len() == 0 {
        Binary64 { bits: LARGEST }
    } else {
        lesser_of(trough(rates.drop_last()), rates.last())
    }
}

/// Whether the least of several rates is below the given share of the greatest.
pub open spec fn uneven(rates: Seq<Binary64>, share: Binary64) -> bool {
    &&& rates.len() > 1
    &&& less(Binary64 { bits: 0 }, peak(rates))
    &&& less(trough(rates), product(peak(rates), share))
}

/// How many times the least of several rates the greatest is; a least rate below one counts as
/// one.
pub open spec fn spread(rates: Seq<Binary64>) -> Binary64 {
    quotient(peak(rates), greater_of(trough(rates), of_integer(1)))
}

/// The observation that partitions are written to unevenly.
pub open spec fn partition_imbalance_observation(
    partitions: Seq<PartitionSnapshot>,
) -> Observation {
    let rates = produced_rates(partitions);
    Observation {
        category: "imbalance"@,
        severity: Severity::Warning,
        message: "Partition imbalance: min="@ + fixed0(trough(rates)) + "/s, max="@ + fixed0(
            peak(rates),
        ) + "/s (ratio "@ + fixed1(spread(rates)) + "x)"@,
    }
}

/// The observation that consumers get uneven shares.
pub open spec fn consumer_imbalance_observation(polls: Seq<ConsumerPollSnapshot>) -> Observation {
    Observation {
        category: "imbalance"@,
        severity: Severity::Warning,
        message: "Consumer imbalance: some consumers processing "@ + fixed1(
            spread(consumed_rates(polls)),
        ) + "x more than others"@,
    }
}

/// The observation that producers send at uneven rates.
pub open spec fn producer_variance_observation(sends: Seq<ProducerSendSnapshot>) -> Observation {
    let rates = send_rates(sends);
    Observation {
        category: "imbalance"@,
        severity: Severity::Info,
        message: "Producer rate variance: min="@ + fixed0(trough(rates)) + "/s, max="@ + fixed0(
            peak(rates),
        ) + "/s"@,
    }
}

/// All observations on imbalance.
pub open spec fn imbalance_observations(
    partitions: Seq<PartitionSnapshot>,
    polls: Seq<ConsumerPollSnapshot>,
    sends: Seq<ProducerSendSnapshot>,
) -> Seq<Observation> {
    let by_partition = if uneven(produced_rates(partitions), fraction(1, 2)) {
        seq![partition_imbalance_observation(partitions)]
    } else {
        Seq::empty()
    };
    let by_consumer = if uneven(consumed_rates(polls), fraction(3, 10)) {
        seq![consumer_imbalance_observation(polls)]
    } else {
        Seq::empty()
    };
    let by_producer = if uneven(send_rates(sends), fraction(1, 2)) {
        seq![producer_variance_observation(sends)]
    } else {
        Seq::empty()
    };
    by_partition + by_consumer + by_producer
}

/// Whether most polls of a consumer are in vain, and there are many of them.
pub open spec fn polls_in_vain(poll: ConsumerPollSnapshot) -> bool {
    less(fraction(1, 2), poll.empty_poll_ratio) && less(of_integer(100), poll.polls_per_sec)
}

/// Whether the polls of a consumer take long.
pub open spec fn polls_slowly(poll: ConsumerPollSnapshot) -> bool {
    poll.poll_duration_p99_us > 10_000
}

/// The observation that a consumer polls in vain.
pub open spec fn empty_polls_observation(poll: ConsumerPollSnapshot) -> Observation {
    Observation {
        category: "polling"@,
        severity: Severity::Warning,
        message: "Consumer "@ + decimal(poll.consumer_id as nat) + " has "@ + fixed0(
            product(poll.empty_poll_ratio, of_integer(100)),
        ) + "% empty polls at "@ + fixed0(poll.polls_per_sec)
            + " polls/s. Consider increasing poll_interval_us."@,
    }
}

/// The observation that a consumer gets small batches in spite of a lag.
pub open spec fn small_batches_observation(poll: ConsumerPollSnapshot, lag: nat) -> Observation {
    Observation {
        category: "polling"@,
        severity: Severity::Info,
        message: "Consumer "@ + decimal(poll.consumer_id as nat) + " getting small batches ("@
            + fixed1(poll.messages_per_poll_avg) + " avg) despite lag="@ + decimal(lag)
            + ". May indicate partition assignment issues."@,
    }
}

/// The observation that a consumer's polls take long.
pub open spec fn slow_polls_observation(poll: ConsumerPollSnapshot) -> Observation {
    Observation {
        category: "polling"@,
        severity: Severity::Warning,
        message: "Consumer "@ + decimal(poll.consumer_id as nat) + " poll p99 latency is "@
            + decimal(poll.poll_duration_p99_us as nat) + "us. Network or server delay."@,
    }
}

/// The observations on one consumer's polls.
pub open spec fn poll_observations(poll: ConsumerPollSnapshot, lag: nat) -> Seq<Observation> {
    let in_vain = if polls_in_vain(poll) {
        seq![empty_polls_observation(poll)]
    } else {
        Seq::empty()
    };
    let small = if lag > 100 && less(poll.messages_per_poll_avg, of_integer(5))
        && poll.messages_per_poll_p99 < 10 {
        seq![small_batches_observation(poll, lag)]
    } else {
        Seq::empty()
    };
    let slow = if polls_slowly(poll) {
        seq![slow_polls_observation(poll)]
    } else {
        Seq::empty()
    };
    in_vain + small + slow
}

/// All observations on polling, consumer by consumer.
pub open spec fn polling_observations(
    polls: Seq<ConsumerPollSnapshot>,
    lag: nat,
) -> Seq<Observation>
    decreases polls.len(),
{
    if polls.len() == 0 {
        Seq::empty()
    } else {
        polling_observations(polls.drop_last(), lag) + poll_observations(polls.last(), lag)
    }
}

/// The observation that a producer does not fill its batches.
pub open spec fn unused_batching_observation(
    send: ProducerSendSnapshot,
    batch_size: u32,
) -> Observation {
    Observation {
        category: "batching"@,
        severity: Severity::Info,
        message: "Producer "@ + decimal(send.producer_id as nat) + " batch_size="@ + decimal(
            batch_size as nat,
        ) + " but avg msgs/send="@ + fixed1(send.messages_per_send_avg)
            + ". Batching not utilized."@,
    }
}

/// The observation that a producer's sends take long.
pub open spec fn slow_sends_observation(send: ProducerSendSnapshot) -> Observation {
    Observation {
        category: "send"@,
        severity: Severity::Warning,
        message: "Producer "@ + decimal(send.producer_id as nat) + " send p99="@ + decimal(
            send.send_duration_p99_us as nat,
        ) + "us. Network or server pressure."@,
    }
}

/// The observations on one producer's sends.
pub open spec fn send_observations(
    send: ProducerSendSnapshot,
    batch_size: u32,
) -> Seq<Observation> {
    let unused = if batch_size > 1 && less(send.messages_per_send_avg, fraction(3, 2)) {
        seq![unused_batching_observation(send, batch_size)]
    } else {
        Seq::empty()
    };
    let slow = if send.send_duration_p99_us > 5_000 {
        seq![slow_sends_observation(send)]
    } else {
        Seq::empty()
    };
    unused + slow
}

/// All observations on sending, producer by producer.
pub open spec fn sending_observations(
    sends: Seq<ProducerSendSnapshot>,
    batch_size: u32,
) -> Seq<Observation>
    decreases sends.len(),
{
    if sends.len() == 0 {
        Seq::empty()
    } else {
        sending_observations(sends.drop_last(), batch_size) + send_observations(
            sends.last(),
            batch_size,
        )
    }
}

/// All observations of a report, in their order.
pub open spec fn all_observations(
    config: BenchmarkConfig,
    overall: OverallMetrics,
    partitions: Seq<PartitionSnapshot>,
    polls: Seq<ConsumerPollSnapshot>,
    sends: Seq<ProducerSendSnapshot>,
) -> Seq<Observation> {
    backlog_observations(partitions, overall) + imbalance_observations(partitions, polls, sends)
        + polling_observations(polls, total_lag(partitions)) + sending_observations(
        sends,
        config.batch_size,
    )
}

/// Whether there is a warning of the given category.
pub open spec fn warned(observations: Seq<Observation>, category: Seq<char>) -> bool {
    exists|i: int|
        0 <= i < observations.len() && (#[trigger] observations[i]).category == category
            && observations[i].severity == Severity::Warning
}

/// What holds the run up most, in words.
pub open spec fn bottleneck(
    observations: Seq<Observation>,
    lag: nat,
    overall: OverallMetrics,
) -> Seq<char> {
    let high_latency = overall.consumer_p99_us > 1000;
    if warned(observations, "backlog"@) && high_latency {
        "FIFO queue residence time (backlog). Messages wait in partition queues before consumption."@
    } else if warned(observations, "imbalance"@) {
        "Partition or consumer imbalance. Work not evenly distributed."@
    } else if warned(observations, "polling"@) {
        "Consumer polling inefficiency. High empty poll rate or slow poll responses."@
    } else if high_latency && lag < 10 {
        "Broker/client/network latency. Low lag suggests not a backlog issue."@
    } else {
        "No clear bottleneck detected. System operating within normal parameters."@
    }
}

/// Whether there is a warning of the given category.
fn has_warning(observations: &Vec<DiagnosticObservation>, category: &str) -> (r: bool)
    ensures
        r == warned(said(observations@), category@),
{
    let wanted: String = category.to_string();
    let mut i: usize = 0;
    while i < observations.len()
        invariant
            i <= observations@.len(),
            wanted@ == category@,
            forall|j: int|
                0 <= j < i ==> !(said(observations@)[j].category == category@ && said(
                    observations@,
                )[j].severity == Severity::Warning),
        decreases observations@.len() - i,
    {
        if observations[i].category == wanted && observations[i].severity == Severity::Warning {
            assert(said(observations@)[i as int].category == category@);
            return true;
        }
        i = i + 1;
    }
    false
}

/// The greatest and the least of some rates.
fn extremes(rates: &Vec<Binary64>) -> (r: (Binary64, Binary64))
    ensures
        r.0 == peak(rates@),
        r.1 == trough(rates@),
{
    let mut high: Binary64 = Binary64 { bits: 0 };
    let mut low: Binary64 = Binary64 { bits: LARGEST };
    let mut i: usize = 0;
    assert(rates@.take(0).len() == 0);
    while i < rates.len()
        invariant
            i <= rates@.len(),
            high == peak(rates@.take(i as int)),
            low == trough(rates@.take(i as int)),
        decreases rates@.len() - i,
    {
        proof {
            let next = rates@.take(i + 1);
            assert(next.drop_last() =~= rates@.take(i as int));
            assert(next.last() == rates@[i as int]);
        }
        high = high.max(rates[i]);
        low = low.min(rates[i]);
        i = i + 1;
    }
    assert(rates@.take(rates@.len() as int) =~= rates@);
    (high, low)
}

fn list_produced_rates(partitions: &Vec<PartitionSnapshot>) -> (r: Vec<Binary64>)
    ensures
        r@ == produced_rates(partitions@),
{
    let mut r: Vec<Binary64> = Vec::new();
    let mut i: usize = 0;
    while i < partitions.len()
        invariant
            i <= partitions@.len(),
            r@ == produced_rates(partitions@.take(i as int)),
        decreases partitions@.len() - i,
    {
        r.push(partitions[i].produced_per_sec);
        i = i + 1;
        assert(r@ =~= produced_rates(partitions@.take(i as int)));
    }
    assert(partitions@.take(partitions@.len() as int) =~= partitions@);
    r
}

fn list_consumed_rates(polls: &Vec<ConsumerPollSnapshot>) -> (r: Vec<Binary64>)
    ensures
        r@ == consumed_rates(polls@),
{
    let mut r: Vec<Binary64> = Vec::new();
    let mut i: usize = 0;
    while i < polls.len()
        invariant
            i <= polls@.len(),
            r@ == consumed_rates(polls@.take(i as int)),
        decreases polls@.len() - i,
    {
        r.push(polls[i].messages_per_poll_avg.times(polls[i].polls_per_sec));
        i = i + 1;
        assert(r@ =~= consumed_rates(polls@.take(i as int)));
    }
    assert(polls@.take(polls@.len() as int) =~= polls@);
    r
}

fn list_send_rates(sends: &Vec<ProducerSendSnapshot>) -> (r: Vec<Binary64>)
    ensures
        r@ == send_rates(sends@),
{
    let mut r: Vec<Binary64> = Vec::new();
    let mut i: usize = 0;
    while i < sends.len()
        invariant
            i <= sends@.len(),
            r@ == send_rates(sends@.take(i as int)),
        decreases sends@.len() - i,
    {
        r.push(sends[i].sends_per_sec);
        i = i + 1;
        assert(r@ =~= send_rates(sends@.take(i as int)));
    }
    assert(sends@.take(sends@.len() as int) =~= sends@);
    r
}

/// Adds an observation.
fn observe(
    observations: &mut Vec<DiagnosticObservation>,
    category: &str,
    severity: Severity,
    message: String,
)
    ensures
        said(final(observations)@) == said(old(observations)@).push(
            Observation { category: category@, severity, message: message@ },
        ),
{
    observations.push(
        DiagnosticObservation { category: category.to_string(), severity, message },
    );
    assert(said(observations@) =~= said(old(observations)@).push(
        Observation { category: category@, severity, message: message@ },
    ));
}

/// The lag of all partitions together.
fn sum_lag(partitions: &Vec<PartitionSnapshot>) -> (lag: u64)
    requires
        total_lag(partitions@) <= u64::MAX,
    ensures
        lag == total_lag(partitions@),
{
    let mut lag: u64 = 0;
    let mut i: usize = 0;
    assert(partitions@.take(0).len() == 0);
    while i < partitions.len()
        invariant
            i <= partitions@.len(),
            total_lag(partitions@) <= u64::MAX,
            lag == total_lag(partitions@.take(i as int)),
        decreases partitions@.len() - i,
    {
        proof {
            let next = partitions@.take(i + 1);
            assert(next.drop_last() =~= partitions@.take(i as int));
            assert(next.last() == partitions@[i as int]);
            lemma_total_lag_grows(partitions@, i + 1);
        }
        lag = lag + partitions[i].current_lag;
        i = i + 1;
    }
    assert(partitions@.take(partitions@.len() as int) =~= partitions@);
    lag
}

/// The first partitions do not have more lag than all of them.
proof fn lemma_total_lag_grows(partitions: Seq<PartitionSnapshot>, n: int)
    requires
        0 <= n <= partitions.len(),
    ensures
        total_lag(partitions.take(n)) <= total_lag(partitions),
    decreases partitions.len(),
{
    if n == partitions.len() {
        assert(partitions.take(n) =~= partitions);
    } else {
        assert(partitions.drop_last().take(n) =~= partitions.take(n));
        lemma_total_lag_grows(partitions.drop_last(), n);
    }
}

/// The largest lag that any partition has had, and the partition that had it.
fn find_worst(partitions: &Vec<PartitionSnapshot>) -> (r: (u64, u32))
    ensures
        r.0 == worst_lag(partitions@),
        r.1 == worst_partition(partitions@),
{
    let mut lag: u64 = 0;
    let mut id: u32 = 0;
    let mut i: usize = 0;
    assert(partitions@.take(0).len() == 0);
    while i < partitions.len()
        invariant
            i <= partitions@.len(),
            lag == worst_lag(partitions@.take(i as int)),
            id == worst_partition(partitions@.take(i as int)),
        decreases partitions@.len() - i,
    {
        proof {
            let next = partitions@.take(i + 1);
            assert(next.drop_last() =~= partitions@.take(i as int));
            assert(next.last() == partitions@[i as int]);
        }
        if partitions[i].max_lag >= lag {
            lag = partitions[i].max_lag;
            id = partitions[i].partition_id;
        }
        i = i + 1;
    }
    assert(partitions@.take(partitions@.len() as int) =~= partitions@);
    (lag, id)
}

/// The messages per second that a partition was read at, on average.
fn mean_consumption(partitions: &Vec<PartitionSnapshot>) -> (r: Binary64)
    ensures
        r == mean_consumed_per_sec(partitions@),
{
    let mut sum: Binary64 = Binary64 { bits: 0 };
    let mut i: usize = 0;
    assert(partitions@.take(0).len() == 0);
    while i < partitions.len()
        invariant
            i <= partitions@.len(),
            sum == total_consumed_per_sec(partitions@.take(i as int)),
        decreases partitions@.len() - i,
    {
        proof {
            let next = partitions@.take(i + 1);
            assert(next.drop_last() =~= partitions@.take(i as int));
            assert(next.last() == partitions@[i as int]);
        }
        sum = sum.plus(partitions[i].consumed_per_sec);
        i = i + 1;
    }
    assert(partitions@.take(partitions@.len() as int) =~= partitions@);
    let n: usize = if partitions.len() < 1 { 1 } else { partitions.len() };
    sum.over(Binary64::from_u64(n as u64))
}

impl DiagnosticReport {
    /// Is latency caused by backlog?
    pub fn analyze_backlog(
        partitions: &Vec<PartitionSnapshot>,
        overall: &OverallMetrics,
        observations: &mut Vec<DiagnosticObservation>,
    )
        requires
            total_lag(partitions@) <= u64::MAX,
        ensures
            said(final(observations)@) == said(old(observations)@) + backlog_observations(
                partitions@,
                *overall,
            ),
    {
        let ghost start = said(observations@);
        let ghost mut found = Seq::<Observation>::empty();
        let lag_sum: u64 = sum_lag(partitions);
        let (max_lag, max_lag_partition): (u64, u32) = find_worst(partitions);
        if max_lag > 1000 {
            let mut s: String = "High max lag: ".to_string();
            push_decimal(&mut s, max_lag as u128);
            s.append(" msgs (partition ");
            push_decimal(&mut s, max_lag_partition as u128);
            s.append("). Latency likely includes queue wait time.");
            observe(observations, "backlog", Severity::Warning, s);
            proof {
                found = found.push(worst_lag_observation(partitions@));
            }
        }
        assert(said(observations@) =~= start + found);
        if lag_sum > 100 && overall.consumer_p99_us > 1000 {
            let mean_rate: Binary64 = mean_consumption(partitions);
            if mean_rate.gt(Binary64 { bits: 0 }) {
                let p50: Binary64 = Binary64::from_u64(overall.consumer_p50_us);
                let wait: Binary64 = Binary64::from_u64(lag_sum).over(mean_rate).times(
                    Binary64::from_u64(1_000_000),
                );
                if wait.gt(p50.times(fraction_of(1, 2))) {
                    let share: Binary64 = wait.over(p50).times(Binary64::from_u64(100));
                    let mut s: String = "Queue wait estimate: ".to_string();
                    push_fixed0(&mut s, wait);
                    s.append("us (lag=");
                    push_decimal(&mut s, lag_sum as u128);
                    s.append(" / rate=");
                    push_fixed0(&mut s, mean_rate);
                    s.append("/s). This explains ~");
                    push_fixed0(&mut s, share);
                    s.append("% of p50 latency.");
                    observe(observations, "backlog", Severity::Info, s);
                    proof {
                        found = found.push(queue_wait_observation(partitions@, *overall));
                    }
                }
            }
        }
        assert(said(observations@) =~= start + found);
        let mut i: usize = 0;
        assert(partitions@.take(0).len() == 0);
        assert(said(observations@) =~= start + found + falls_behind_observations(
            partitions@.take(0),
        ));
        while i < partitions.len()
            invariant
                i <= partitions@.len(),
                said(observations@) == start + found + falls_behind_observations(
                    partitions@.take(i as int),
                ),
            decreases partitions@.len() - i,
        {
            let p: PartitionSnapshot = partitions[i];
            proof {
                let next = partitions@.take(i + 1);
                assert(next.drop_last() =~= partitions@.take(i as int));
                assert(next.last() == p);
            }
            if p.produced_per_sec.gt(p.consumed_per_sec.times(fraction_of(11, 10)))
                && p.produced_count > 100 {
                let mut s: String = "Partition ".to_string();
                push_decimal(&mut s, p.partition_id as u128);
                s.append(" falling behind: produce=");
                push_fixed0(&mut s, p.produced_per_sec);
                s.append("/s, consume=");
                push_fixed0(&mut s, p.consumed_per_sec);
                s.append("/s");
                observe(observations, "backlog", Severity::Warning, s);
            }
            i = i + 1;
            assert(said(observations@) =~= start + found + falls_behind_observations(
                partitions@.take(i as int),
            ));
        }
        proof {
            assert(partitions@.take(partitions@.len() as int) =~= partitions@);
            assert(said(observations@) =~= start + backlog_observations(partitions@, *overall));
        }
    }

    /// Are producers or consumers imbalanced?
    pub fn analyze_imbalance(
        partitions: &Vec<PartitionSnapshot>,
        consumer_polls: &Vec<ConsumerPollSnapshot>,
        producer_sends: &Vec<ProducerSendSnapshot>,
        observations: &mut Vec<DiagnosticObservation>,
    )
        ensures
            said(final(observations)@) == said(old(observations)@) + imbalance_observations(
                partitions@,
                consumer_polls@,
                producer_sends@,
            ),
    {
        let ghost start = said(observations@);
        let ghost mut found = Seq::<Observation>::empty();
        let one: Binary64 = Binary64::from_u64(1);
        let zero: Binary64 = Binary64 { bits: 0 };
        if partitions.len() > 1 {
            let rates: Vec<Binary64> = list_produced_rates(partitions);
            let (max_rate, min_rate): (Binary64, Binary64) = extremes(&rates);
            if max_rate.gt(zero) && min_rate.lt(max_rate.times(fraction_of(1, 2))) {
                let mut s: String = "Partition imbalance: min=".to_string();
                push_fixed0(&mut s, min_rate);
                s.append("/s, max=");
                push_fixed0(&mut s, max_rate);
                s.append("/s (ratio ");
                push_fixed1(&mut s, max_rate.over(min_rate.max(one)));
                s.append("x)");
                observe(observations, "imbalance", Severity::Warning, s);
                proof {
                    found = found.push(partition_imbalance_observation(partitions@));
                }
            }
        }
        assert(said(observations@) =~= start + found);
        if consumer_polls.len() > 1 {
            let rates: Vec<Binary64> = list_consumed_rates(consumer_polls);
            let (max_rate, min_rate): (Binary64, Binary64) = extremes(&rates);
            if max_rate.gt(zero) && min_rate.lt(max_rate.times(fraction_of(3, 10))) {
                let mut s: String = "Consumer imbalance: some consumers processing ".to_string();
                push_fixed1(&mut s, max_rate.over(min_rate.max(one)));
                s.append("x more than others");
                observe(observations, "imbalance", Severity::Warning, s);
                proof {
                    found = found.push(consumer_imbalance_observation(consumer_polls@));
                }
            }
        }
        assert(said(observations@) =~= start + found);
        if producer_sends.len() > 1 {
            let rates: Vec<Binary64> = list_send_rates(producer_sends);
            let (max_rate, min_rate): (Binary64, Binary64) = extremes(&rates);
            if max_rate.gt(zero) && min_rate.lt(max_rate.times(fraction_of(1, 2))) {
                let mut s: String = "Producer rate variance: min=".to_string();
                push_fixed0(&mut s, min_rate);
                s.append("/s, max=");
                push_fixed0(&mut s, max_rate);
                s.append("/s");
                observe(observations, "imbalance", Severity::Info, s);
                proof {
                    found = found.push(producer_variance_observation(producer_sends@));
                }
            }
        }
        proof {
            assert(said(observations@) =~= start + found);
            assert(found =~= imbalance_observations(
                partitions@,
                consumer_polls@,
                producer_sends@,
            ));
        }
    }

    /// Are consumers polling efficiently?
    pub fn analyze_poll_efficiency(
        consumer_polls: &Vec<ConsumerPollSnapshot>,
        partitions: &Vec<PartitionSnapshot>,
        observations: &mut Vec<DiagnosticObservation>,
    )
        requires
            total_lag(partitions@) <= u64::MAX,
        ensures
            said(final(observations)@) == said(old(observations)@) + polling_observations(
                consumer_polls@,
                total_lag(partitions@),
            ),
    {
        let ghost start = said(observations@);
        let lag_sum: u64 = sum_lag(partitions);
        let ghost lag = total_lag(partitions@);
        let mut i: usize = 0;
        assert(consumer_polls@.take(0).len() == 0);
        assert(said(observations@) =~= start + polling_observations(consumer_polls@.take(0), lag));
        while i < consumer_polls.len()
            invariant
                i <= consumer_polls@.len(),
                lag_sum == lag,
                said(observations@) == start + polling_observations(
                    consumer_polls@.take(i as int),
                    lag,
                ),
            decreases consumer_polls@.len() - i,
        {
            let poll: ConsumerPollSnapshot = consumer_polls[i];
            let ghost before = said(observations@);
            let ghost mut found = Seq::<Observation>::empty();
            proof {
                let next = consumer_polls@.take(i + 1);
                assert(next.drop_last() =~= consumer_polls@.take(i as int));
                assert(next.last() == poll);
            }
            if poll.empty_poll_ratio.gt(fraction_of(1, 2)) && poll.polls_per_sec.gt(
                Binary64::from_u64(100),
            ) {
                let mut s: String = "Consumer ".to_string();
                push_decimal(&mut s, poll.consumer_id as u128);
                s.append(" has ");
                push_fixed0(&mut s, poll.empty_poll_ratio.times(Binary64::from_u64(100)));
                s.append("% empty polls at ");
                push_fixed0(&mut s, poll.polls_per_sec);
                s.append(" polls/s. Consider increasing poll_interval_us.");
                observe(observations, "polling", Severity::Warning, s);
                proof {
                    found = found.push(empty_polls_observation(poll));
                }
            }
            assert(said(observations@) =~= before + found);
            if lag_sum > 100 && poll.messages_per_poll_avg.lt(Binary64::from_u64(5))
                && poll.messages_per_poll_p99 < 10 {
                let mut s: String = "Consumer ".to_string();
                push_decimal(&mut s, poll.consumer_id as u128);
                s.append(" getting small batches (");
                push_fixed1(&mut s, poll.messages_per_poll_avg);
                s.append(" avg) despite lag=");
                push_decimal(&mut s, lag_sum as u128);
                s.append(". May indicate partition assignment issues.");
                observe(observations, "polling", Severity::Info, s);
                proof {
                    found = found.push(small_batches_observation(poll, lag));
                }
            }
            assert(said(observations@) =~= before + found);
            if poll.poll_duration_p99_us > 10_000 {
                let mut s: String = "Consumer ".to_string();
                push_decimal(&mut s, poll.consumer_id as u128);
                s.append(" poll p99 latency is ");
                push_decimal(&mut s, poll.poll_duration_p99_us as u128);
                s.append("us. Network or server delay.");
                observe(observations, "polling", Severity::Warning, s);
                proof {
                    found = found.push(slow_polls_observation(poll));
                }
            }
            i = i + 1;
            proof {
                assert(said(observations@) =~= before + found);
                assert(found =~= poll_observations(poll, lag));
                assert(said(observations@) =~= start + polling_observations(
                    consumer_polls@.take(i as int),
                    lag,
                ));
            }
        }
        assert(consumer_polls@.take(consumer_polls@.len() as int) =~= consumer_polls@);
    }

    /// Is the producer sending efficiently?
    pub fn analyze_send_efficiency(
        producer_sends: &Vec<ProducerSendSnapshot>,
        config: &BenchmarkConfig,
        observations: &mut Vec<DiagnosticObservation>,
    )
        ensures
            said(final(observations)@) == said(old(observations)@) + sending_observations(
                producer_sends@,
                config.batch_size,
            ),
    {
        let ghost start = said(observations@);
        let mut i: usize = 0;
        assert(producer_sends@.take(0).len() == 0);
        assert(said(observations@) =~= start + sending_observations(
            producer_sends@.take(0),
            config.batch_size,
        ));
        while i < producer_sends.len()
            invariant
                i <= producer_sends@.len(),
                said(observations@) == start + sending_observations(
                    producer_sends@.take(i as int),
                    config.batch_size,
                ),
            decreases producer_sends@.len() - i,
        {
            let send: ProducerSendSnapshot = producer_sends[i];
            let ghost before = said(observations@);
            let ghost mut found = Seq::<Observation>::empty();
            proof {
                let next = producer_sends@.take(i + 1);
                assert(next.drop_last() =~= producer_sends@.take(i as int));
                assert(next.last() == send);
            }
            if config.batch_size > 1 && send.messages_per_send_avg.lt(fraction_of(3, 2)) {
                let mut s: String = "Producer ".to_string();
                push_decimal(&mut s, send.producer_id as u128);
                s.append(" batch_size=");
                push_decimal(&mut s, config.batch_size as u128);
                s.append(" but avg msgs/send=");
                push_fixed1(&mut s, send.messages_per_send_avg);
                s.append(". Batching not utilized.");
                observe(observations, "batching", Severity::Info, s);
                proof {
                    found = found.push(unused_batching_observation(send, config.batch_size));
                }
            }
            assert(said(observations@) =~= before + found);
            if send.send_duration_p99_us > 5_000 {
                let mut s: String = "Producer ".to_string();
                push_decimal(&mut s, send.producer_id as u128);
                s.append(" send p99=");
                push_decimal(&mut s, send.send_duration_p99_us as u128);
                s.append("us. Network or server pressure.");
                observe(observations, "send", Severity::Warning, s);
                proof {
                    found = found.push(slow_sends_observation(send));
                }
            }
            i = i + 1;
            proof {
                assert(said(observations@) =~= before + found);
                assert(found =~= send_observations(send, config.batch_size));
                assert(said(observations@) =~= start + sending_observations(
                    producer_sends@.take(i as int),
                    config.batch_size,
                ));
            }
        }
        assert(producer_sends@.take(producer_sends@.len() as int) =~= producer_sends@);
    }

    /// What holds the run up most, in words.
    pub fn summarize_bottleneck(
        observations: &Vec<DiagnosticObservation>,
        partitions: &Vec<PartitionSnapshot>,
        overall: &OverallMetrics,
    ) -> (r: String)
        requires
            total_lag(partitions@) <= u64::MAX,
        ensures
            r@ == bottleneck(said(observations@), total_lag(partitions@), *overall),
    {
        let has_backlog: bool = has_warning(observations, "backlog");
        let has_imbalance: bool = has_warning(observations, "imbalance");
        let has_poll_issues: bool = has_warning(observations, "polling");
        let lag_sum: u64 = sum_lag(partitions);
        let high_latency: bool = overall.consumer_p99_us > 1000;
        if has_backlog && high_latency {
            "FIFO queue residence time (backlog). Messages wait in partition queues before consumption.".to_string()
        } else if has_imbalance {
            "Partition or consumer imbalance. Work not evenly distributed.".to_string()
        } else if has_poll_issues {
            "Consumer polling inefficiency. High empty poll rate or slow poll responses.".to_string()
        } else if high_latency && lag_sum < 10 {
            "Broker/client/network latency. Low lag suggests not a backlog issue.".to_string()
        } else {
            "No clear bottleneck detected. System operating within normal parameters.".to_string()
        }
    }

    /// Derives the report from the figures of a run.
    pub fn analyze(
        config: BenchmarkConfig,
        overall: OverallMetrics,
        partitions: Vec<PartitionSnapshot>,
        consumer_polls: Vec<ConsumerPollSnapshot>,
        producer_sends: Vec<ProducerSendSnapshot>,
    ) -> (r: DiagnosticReport)
        requires
            total_lag(partitions@) <= u64::MAX,
        ensures
            r.config == config,
            r.overall == overall,
            r.partitions == partitions,
            r.consumer_polls == consumer_polls,
            r.producer_sends == producer_sends,
            said(r.observations@) == all_observations(
                config,
                overall,
                partitions@,
                consumer_polls@,
                producer_sends@,
            ),
            r.bottleneck_summary@ == bottleneck(
                said(r.observations@),
                total_lag(partitions@),
                overall,
            ),
    {
        let mut observations: Vec<DiagnosticObservation> = Vec::new();
        assert(said(observations@) =~= Seq::<Observation>::empty());
        Self::analyze_backlog(&partitions, &overall, &mut observations);
        Self::analyze_imbalance(&partitions, &consumer_polls, &producer_sends, &mut observations);
        Self::analyze_poll_efficiency(&consumer_polls, &partitions, &mut observations);
        Self::analyze_send_efficiency(&producer_sends, &config, &mut observations);
        assert(said(observations@) =~= all_observations(
            config,
            overall,
            partitions@,
            consumer_polls@,
            producer_sends@,
        ));
        let bottleneck_summary: String = Self::summarize_bottleneck(
            &observations,
            &partitions,
            &overall,
        );
        DiagnosticReport {
            config,
            overall,
            partitions,
            consumer_polls,
            producer_sends,
            observations,
            bottleneck_summary,
        }
    }
}

/// The partition that is named for the largest lag has had it, and it is the last of those.
pub proof fn law_worst_partition_is_the_last_worst(partitions: Seq<PartitionSnapshot>) -> (at: int)
    requires
        partitions.len() > 0,
    ensures
        0 <= at < partitions.len(),
        worst_partition(partitions) == partitions[at].partition_id,
        worst_lag(partitions) == partitions[at].max_lag,
        forall|i: int|
            0 <= i < partitions.len() ==> (#[trigger] partitions[i]).max_lag <= worst_lag(
                partitions,
            ),
        forall|i: int|
            at < i < partitions.len() ==> (#[trigger] partitions[i]).max_lag < worst_lag(
                partitions,
            ),
    decreases partitions.len(),
{
    let before = partitions.drop_last();
    let last = partitions.len() - 1;
    if before.len() == 0 {
        assert(worst_lag(before) == 0);
        0
    } else {
        let at = law_worst_partition_is_the_last_worst(before);
        assert forall|i: int| 0 <= i < partitions.len() implies (#[trigger] partitions[i]).max_lag
            <= worst_lag(partitions) by {
            if i < last {
                assert(before[i] == partitions[i]);
            }
        }
        if partitions.last().max_lag >= worst_lag(before) {
            last
        } else {
            assert forall|i: int| at < i < partitions.len() implies (
            #[trigger] partitions[i]).max_lag < worst_lag(partitions) by {
                if i < last {
                    assert(before[i] == partitions[i]);
                }
            }
            at
        }
    }
}

/// Whether all observations of a list are of one category.
pub open spec fn all_about(list: Seq<Observation>, category: Seq<char>) -> bool {
    forall|i: int| 0 <= i < list.len() ==> (#[trigger] list[i]).category == category
}

/// There is a warning in two lists together where there is one in either.
proof fn lemma_warned_in_either(a: Seq<Observation>, b: Seq<Observation>, category: Seq<char>)
    ensures
        warned(a + b, category) == (warned(a, category) || warned(b, category)),
{
    let both = a + b;
    if warned(a, category) {
        let i = choose|i: int|
            0 <= i < a.len() && (#[trigger] a[i]).category == category && a[i].severity
                == Severity::Warning;
        assert(both[i] == a[i]);
    }
    if warned(b, category) {
        let i = choose|i: int|
            0 <= i < b.len() && (#[trigger] b[i]).category == category && b[i].severity
                == Severity::Warning;
        assert(both[a.len() + i] == b[i]);
    }
    if warned(both, category) {
        let i = choose|i: int|
            0 <= i < both.len() && (#[trigger] both[i]).category == category && both[i].severity
                == Severity::Warning;
        if i < a.len() {
            assert(a[i] == both[i]);
        } else {
            assert(b[i - a.len()] == both[i]);
        }
    }
}

/// Observations of one category hold no warning of another.
proof fn lemma_no_warning_of_another(
    list: Seq<Observation>,
    category: Seq<char>,
    other: Seq<char>,
)
    requires
        all_about(list, category),
        category != other,
    ensures
        !warned(list, other),
{
}

/// The categories are told apart by their names.
proof fn lemma_categories_differ()
    ensures
        "backlog"@ != "imbalance"@,
        "backlog"@ != "polling"@,
        "backlog"@ != "batching"@,
        "backlog"@ != "send"@,
        "imbalance"@ != "polling"@,
        "imbalance"@ != "batching"@,
        "imbalance"@ != "send"@,
        "polling"@ != "batching"@,
        "polling"@ != "send"@,
{
    reveal_strlit("backlog");
    reveal_strlit("imbalance");
    reveal_strlit("polling");
    reveal_strlit("batching");
    reveal_strlit("send");
    assert("backlog"@[0] == 'b');
    assert("polling"@[0] == 'p');
    assert("imbalance"@.len() == 9);
    assert("batching"@.len() == 8);
    assert("send"@.len() == 4);
}

/// There is a warning for the partitions that fall behind where there is such a partition.
proof fn lemma_falls_behind_warned(partitions: Seq<PartitionSnapshot>)
    ensures
        all_about(falls_behind_observations(partitions), "backlog"@),
        warned(falls_behind_observations(partitions), "backlog"@) <==> exists|i: int|
            0 <= i < partitions.len() && falls_behind(#[trigger] partitions[i]),
    decreases partitions.len(),
{
    let list = falls_behind_observations(partitions);
    if partitions.len() > 0 {
        let before = partitions.drop_last();
        let earlier = falls_behind_observations(before);
        lemma_falls_behind_warned(before);
        let last = partitions.len() - 1;
        assert(forall|i: int| 0 <= i < before.len() ==> before[i] == #[trigger] partitions[i]);
        assert(partitions[last] == partitions.last());
        if falls_behind(partitions.last()) {
            assert(list[list.len() - 1] == falls_behind_observation(partitions.last()));
        } else {
            assert(list == earlier);
            if exists|i: int| 0 <= i < partitions.len() && falls_behind(#[trigger] partitions[i]) {
                let i = choose|i: int|
                    0 <= i < partitions.len() && falls_behind(#[trigger] partitions[i]);
                assert(falls_behind(before[i]));
            }
            if warned(list, "backlog"@) {
                let i = choose|i: int|
                    0 <= i < before.len() && falls_behind(#[trigger] before[i]);
                assert(falls_behind(partitions[i]));
            }
        }
    } else {
        assert(list.len() == 0);
    }
}

/// The observations on backlog are of that category.
proof fn lemma_backlog_category(partitions: Seq<PartitionSnapshot>, overall: OverallMetrics)
    ensures
        all_about(backlog_observations(partitions, overall), "backlog"@),
        warned(backlog_observations(partitions, overall), "backlog"@) <==> worst_lag(partitions)
            > 1000 || exists|i: int|
            0 <= i < partitions.len() && falls_behind(#[trigger] partitions[i]),
{
    let behind = falls_behind_observations(partitions);
    lemma_falls_behind_warned(partitions);
    let lag = if worst_lag(partitions) > 1000 {
        seq![worst_lag_observation(partitions)]
    } else {
        Seq::empty()
    };
    let wait = if waits_in_queue(partitions, overall) {
        seq![queue_wait_observation(partitions, overall)]
    } else {
        Seq::empty()
    };
    assert(backlog_observations(partitions, overall) == lag + wait + behind);
    lemma_warned_in_either(lag, wait, "backlog"@);
    lemma_warned_in_either(lag + wait, behind, "backlog"@);
    if lag.len() > 0 {
        assert(lag[0] == worst_lag_observation(partitions));
    }
    assert(!warned(wait, "backlog"@));
}

/// The observations on imbalance are of that category.
proof fn lemma_imbalance_category(
    partitions: Seq<PartitionSnapshot>,
    polls: Seq<ConsumerPollSnapshot>,
    sends: Seq<ProducerSendSnapshot>,
)
    ensures
        all_about(imbalance_observations(partitions, polls, sends), "imbalance"@),
        warned(imbalance_observations(partitions, polls, sends), "imbalance"@) <==> uneven(
            produced_rates(partitions),
            fraction(1, 2),
        ) || uneven(consumed_rates(polls), fraction(3, 10)),
{
    let by_partition = if uneven(produced_rates(partitions), fraction(1, 2)) {
        seq![partition_imbalance_observation(partitions)]
    } else {
        Seq::empty()
    };
    let by_consumer = if uneven(consumed_rates(polls), fraction(3, 10)) {
        seq![consumer_imbalance_observation(polls)]
    } else {
        Seq::empty()
    };
    let by_producer = if uneven(send_rates(sends), fraction(1, 2)) {
        seq![producer_variance_observation(sends)]
    } else {
        Seq::empty()
    };
    assert(imbalance_observations(partitions, polls, sends) == by_partition + by_consumer
        + by_producer);
    lemma_warned_in_either(by_partition, by_consumer, "imbalance"@);
    lemma_warned_in_either(by_partition + by_consumer, by_producer, "imbalance"@);
    if by_partition.len() > 0 {
        assert(by_partition[0] == partition_imbalance_observation(partitions));
    }
    if by_consumer.len() > 0 {
        assert(by_consumer[0] == consumer_imbalance_observation(polls));
    }
    assert(!warned(by_producer, "imbalance"@));
}

/// The observations on one consumer's polls are of that category.
proof fn lemma_poll_category(poll: ConsumerPollSnapshot, lag: nat)
    ensures
        all_about(poll_observations(poll, lag), "polling"@),
        warned(poll_observations(poll, lag), "polling"@) <==> polls_in_vain(poll) || polls_slowly(
            poll,
        ),
{
    let in_vain = if polls_in_vain(poll) {
        seq![empty_polls_observation(poll)]
    } else {
        Seq::empty()
    };
    let small = if lag > 100 && less(poll.messages_per_poll_avg, of_integer(5))
        && poll.messages_per_poll_p99 < 10 {
        seq![small_batches_observation(poll, lag)]
    } else {
        Seq::empty()
    };
    let slow = if polls_slowly(poll) {
        seq![slow_polls_observation(poll)]
    } else {
        Seq::empty()
    };
    assert(poll_observations(poll, lag) == in_vain + small + slow);
    lemma_warned_in_either(in_vain, small, "polling"@);
    lemma_warned_in_either(in_vain + small, slow, "polling"@);
    if in_vain.len() > 0 {
        assert(in_vain[0] == empty_polls_observation(poll));
    }
    if slow.len() > 0 {
        assert(slow[0] == slow_polls_observation(poll));
    }
    assert(!warned(small, "polling"@));
}

/// The observations on polling are of that category.
proof fn lemma_polling_category(polls: Seq<ConsumerPollSnapshot>, lag: nat)
    ensures
        all_about(polling_observations(polls, lag), "polling"@),
        warned(polling_observations(polls, lag), "polling"@) <==> exists|i: int|
            0 <= i < polls.len() && (polls_in_vain(#[trigger] polls[i]) || polls_slowly(polls[i])),
    decreases polls.len(),
{
    if polls.len() > 0 {
        let before = polls.drop_last();
        let last = polls.len() - 1;
        lemma_polling_category(before, lag);
        lemma_poll_category(polls.last(), lag);
        lemma_warned_in_either(
            polling_observations(before, lag),
            poll_observations(polls.last(), lag),
            "polling"@,
        );
        assert(forall|i: int| 0 <= i < before.len() ==> before[i] == #[trigger] polls[i]);
        assert(polls[last] == polls.last());
        let list = polling_observations(polls, lag);
        if exists|i: int|
            0 <= i < polls.len() && (polls_in_vain(#[trigger] polls[i]) || polls_slowly(polls[i])) {
            let i = choose|i: int|
                0 <= i < polls.len() && (polls_in_vain(#[trigger] polls[i]) || polls_slowly(
                    polls[i],
                ));
            if i < last {
                assert(polls_in_vain(before[i]) || polls_slowly(before[i]));
            }
        }
        if warned(polling_observations(before, lag), "polling"@) {
            let i = choose|i: int|
                0 <= i < before.len() && (polls_in_vain(#[trigger] before[i]) || polls_slowly(
                    before[i],
                ));
            assert(polls_in_vain(polls[i]) || polls_slowly(polls[i]));
        }
    }
}

/// The observations on sending are on batching or on slow sends, and never a warning of another
/// category.
proof fn lemma_sending_category(sends: Seq<ProducerSendSnapshot>, batch_size: u32)
    ensures
        forall|i: int|
            0 <= i < sending_observations(sends, batch_size).len() ==> {
                let o = #[trigger] sending_observations(sends, batch_size)[i];
                o.category == "batching"@ && o.severity == Severity::Info || o.category == "send"@
                    && o.severity == Severity::Warning
            },
    decreases sends.len(),
{
    if sends.len() > 0 {
        lemma_sending_category(sends.drop_last(), batch_size);
    }
}

/// The warnings of a report follow from its figures: a backlog where a lag has been large or a
/// partition falls behind, an imbalance where partitions or consumers get uneven shares, and
/// polling where a consumer polls in vain or slowly.
pub proof fn law_warnings_follow_from_figures(
    config: BenchmarkConfig,
    overall: OverallMetrics,
    partitions: Seq<PartitionSnapshot>,
    polls: Seq<ConsumerPollSnapshot>,
    sends: Seq<ProducerSendSnapshot>,
)
    ensures
        ({
            let all = all_observations(config, overall, partitions, polls, sends);
            &&& warned(all, "backlog"@) <==> worst_lag(partitions) > 1000 || exists|i: int|
                0 <= i < partitions.len() && falls_behind(#[trigger] partitions[i])
            &&& warned(all, "imbalance"@) <==> uneven(produced_rates(partitions), fraction(1, 2))
                || uneven(consumed_rates(polls), fraction(3, 10))
            &&& warned(all, "polling"@) <==> exists|i: int|
                0 <= i < polls.len() && (polls_in_vain(#[trigger] polls[i]) || polls_slowly(
                    polls[i],
                ))
        }),
{
    let backlog = backlog_observations(partitions, overall);
    let imbalance = imbalance_observations(partitions, polls, sends);
    let polling = polling_observations(polls, total_lag(partitions));
    let sending = sending_observations(sends, config.batch_size);
    lemma_categories_differ();
    lemma_backlog_category(partitions, overall);
    lemma_imbalance_category(partitions, polls, sends);
    lemma_polling_category(polls, total_lag(partitions));
    lemma_sending_category(sends, config.batch_size);
    let names = seq!["backlog"@, "imbalance"@, "polling"@];
    assert forall|n: int| 0 <= n < 3 implies warned(
        backlog + imbalance + polling + sending,
        #[trigger] names[n],
    ) == (warned(backlog, names[n]) || warned(imbalance, names[n]) || warned(polling, names[n]))
        && !warned(sending, names[n]) by {
        lemma_warned_in_either(backlog, imbalance, names[n]);
        lemma_warned_in_either(backlog + imbalance, polling, names[n]);
        lemma_warned_in_either(backlog + imbalance + polling, sending, names[n]);
    }
    assert(names[0] == "backlog"@ && names[1] == "imbalance"@ && names[2] == "polling"@);
    lemma_no_warning_of_another(backlog, "backlog"@, "imbalance"@);
    lemma_no_warning_of_another(backlog, "backlog"@, "polling"@);
    lemma_no_warning_of_another(imbalance, "imbalance"@, "backlog"@);
    lemma_no_warning_of_another(imbalance, "imbalance"@, "polling"@);
    lemma_no_warning_of_another(polling, "polling"@, "backlog"@);
    lemma_no_warning_of_another(polling, "polling"@, "imbalance"@);
}

/// No observation is critical.
pub proof fn law_nothing_is_critical(
    config: BenchmarkConfig,
    overall: OverallMetrics,
    partitions: Seq<PartitionSnapshot>,
    polls: Seq<ConsumerPollSnapshot>,
    sends: Seq<ProducerSendSnapshot>,
)
    ensures
        forall|i: int|
            0 <= i < all_observations(config, overall, partitions, polls, sends).len() ==> (
            #[trigger] all_observations(
                config,
                overall,
                partitions,
                polls,
                sends,
            )[i]).severity != Severity::Critical,
{
    lemma_behind_not_critical(partitions);
    lemma_polling_not_critical(polls, total_lag(partitions));
    lemma_sending_category(sends, config.batch_size);
}

proof fn lemma_behind_not_critical(partitions: Seq<PartitionSnapshot>)
    ensures
        forall|i: int|
            0 <= i < falls_behind_observations(partitions).len() ==> (
            #[trigger] falls_behind_observations(partitions)[i]).severity != Severity::Critical,
    decreases partitions.len(),
{
    if partitions.len() > 0 {
        lemma_behind_not_critical(partitions.drop_last());
    }
}

proof fn lemma_polling_not_critical(polls: Seq<ConsumerPollSnapshot>, lag: nat)
    ensures
        forall|i: int|
            0 <= i < polling_observations(polls, lag).len() ==> (#[trigger] polling_observations(
                polls,
                lag,
            )[i]).severity != Severity::Critical,
    decreases polls.len(),
{
    if polls.len() > 0 {
        lemma_polling_not_critical(polls.drop_last(), lag);
    }
}

/// A run of which nothing is known gives no observations, and no bottleneck unless the latency is
/// high.
pub proof fn law_nothing_is_observed_of_nothing(config: BenchmarkConfig, overall: OverallMetrics)
    ensures
        ({
            let all = all_observations(
                config,
                overall,
                Seq::empty(),
                Seq::empty(),
                Seq::empty(),
            );
            &&& all == Seq::<Observation>::empty()
            &&& bottleneck(all, 0, overall) == if overall.consumer_p99_us > 1000 {
                "Broker/client/network latency. Low lag suggests not a backlog issue."@
            } else {
                "No clear bottleneck detected. System operating within normal parameters."@
            }
        }),
{
    let all = all_observations(config, overall, Seq::empty(), Seq::empty(), Seq::empty());
    assert(all =~= Seq::<Observation>::empty());
}

/// Whether there is at most one rate, or all rates have the same value and none is infinite.
pub open spec fn all_equal(rates: Seq<Binary64>) -> bool {
    rates.len() <= 1 || forall|i: int|
        0 <= i < rates.len() ==> (#[trigger] rates[i]).exact() == rates[0].exact()
            && !rates[i].infinite()
}

/// Equal rates are never uneven, whatever share of at most one is asked for.
pub proof fn law_equal_rates_are_even(rates: Seq<Binary64>, share: Binary64)
    requires
        all_equal(rates),
        !share.nan(),
        !share.infinite(),
        !share.negative(),
        !less(of_integer(1), share),
    ensures
        !uneven(rates, share),
{
    let (zero, top) = (Binary64 { bits: 0 }, peak(rates));
    lemma_extremes_are_extreme(rates);
    if rates.len() > 1 && top != zero {
        let i = choose|i: int| 0 <= i < rates.len() && rates[i] == top;
        assert(rates[i].exact() == rates[0].exact());
        assert(units(0) == 0);
        lemma_finite_is_not_above_largest(top);
        if rates.contains(trough(rates)) {
            let j = choose|j: int| 0 <= j < rates.len() && rates[j] == trough(rates);
            assert(rates[j].exact() == rates[0].exact());
        }
        law_share_of_a_number_is_not_above_it(top, share);
    }
}

/// No finite number is above the largest one.
pub(crate) proof fn lemma_finite_is_not_above_largest(x: Binary64)
    requires
        !x.nan(),
        !x.infinite(),
        !x.negative(),
    ensures
        x.exact() <= (Binary64 { bits: LARGEST }).exact(),
{
    if x.magnitude() < LARGEST {
        lemma_units_monotone(x.magnitude(), LARGEST as nat);
    } else {
        assert(x.bits == LARGEST);
    }
}

/// The peak is zero or one of the rates, and no rate is above it; the trough is the largest finite
/// number or one of the rates, and no rate is below it. Neither is a NaN.
pub(crate) proof fn lemma_extremes_are_extreme(rates: Seq<Binary64>)
    ensures
        !peak(rates).nan(),
        peak(rates) == (Binary64 { bits: 0 }) || rates.contains(peak(rates)) && less(
            Binary64 { bits: 0 },
            peak(rates),
        ),
        forall|x: Binary64| #[trigger] rates.contains(x) ==> !less(peak(rates), x),
        !trough(rates).nan(),
        trough(rates) == (Binary64 { bits: LARGEST }) || rates.contains(trough(rates)) && less(
            trough(rates),
            Binary64 { bits: LARGEST },
        ),
        forall|x: Binary64| #[trigger] rates.contains(x) ==> !less(x, trough(rates)),
    decreases rates.len(),
{
    if rates.len() > 0 {
        let before = rates.drop_last();
        let last = rates.last();
        lemma_extremes_are_extreme(before);
        assert(rates[rates.len() - 1] == last);
        assert forall|x: Binary64| #[trigger] rates.contains(x) implies before.contains(x) || x
            == last by {
            let i = choose|i: int| 0 <= i < rates.len() && rates[i] == x;
            if i < before.len() {
                assert(before[i] == x);
            }
        }
        assert forall|x: Binary64| #[trigger] before.contains(x) implies rates.contains(x) by {
            let i = choose|i: int| 0 <= i < before.len() && before[i] == x;
            assert(rates[i] == x);
        }
    }
}

/// Two numbers of the same value are the same, but for the two zeros.
pub(crate) proof fn lemma_same_value(a: Binary64, b: Binary64)
    requires
        !a.nan(),
        !b.nan(),
        a.exact() == b.exact(),
    ensures
        a == b || a.magnitude() == 0 && b.magnitude() == 0,
{
    assert(units(0) == 0);
    let (m, n) = (a.magnitude(), b.magnitude());
    if m > 0 {
        lemma_units_monotone(0, m);
    }
    if n > 0 {
        lemma_units_monotone(0, n);
    }
    if m < n {
        lemma_units_monotone(m, n);
    } else if n < m {
        lemma_units_monotone(n, m);
    }
}

/// Whether some rates hold both the positive and the negative zero.
pub open spec fn mixes_zeros(rates: Seq<Binary64>) -> bool {
    rates.contains(Binary64 { bits: 0 }) && rates.contains(Binary64 { bits: SIGN })
}

/// The order of rates does not matter to their extremes, nor to whether and by how much they are
/// uneven. The one difference that it can make is which of two zeros the trough is, where the
/// rates hold both.
pub proof fn law_order_of_rates_does_not_matter(a: Seq<Binary64>, b: Seq<Binary64>)
    requires
        a.to_multiset() == b.to_multiset(),
    ensures
        peak(a) == peak(b),
        trough(a).exact() == trough(b).exact(),
        !mixes_zeros(a) ==> trough(a) == trough(b),
        forall|share: Binary64| #[trigger] uneven(a, share) == uneven(b, share),
        spread(a) == spread(b),
{
    lemma_same_members(a, b);
    lemma_order_of_rates(a, b);
}

/// Lists that differ in their order only have the same length and the same members.
proof fn lemma_same_members<T>(a: Seq<T>, b: Seq<T>)
    requires
        a.to_multiset() == b.to_multiset(),
    ensures
        a.len() == b.len(),
        forall|x: T| #[trigger] a.contains(x) <==> b.contains(x),
        forall|x: T| #[trigger] b.contains(x) <==> a.contains(x),
{
    a.to_multiset_ensures();
    b.to_multiset_ensures();
    assert forall|x: T| true implies (#[trigger] a.contains(x) <==> b.contains(x)) by {
        assert(a.contains(x) <==> a.to_multiset().count(x) > 0);
        assert(b.contains(x) <==> b.to_multiset().count(x) > 0);
    }
}

/// The same of rates that are known to be the same up to repetition.
proof fn lemma_order_of_rates(a: Seq<Binary64>, b: Seq<Binary64>)
    requires
        a.len() == b.len(),
        forall|x: Binary64| #[trigger] a.contains(x) <==> b.contains(x),
    ensures
        peak(a) == peak(b),
        trough(a).exact() == trough(b).exact(),
        !mixes_zeros(a) ==> trough(a) == trough(b),
        forall|share: Binary64| #[trigger] uneven(a, share) == uneven(b, share),
        spread(a) == spread(b),
{
    let zero = Binary64 { bits: 0 };
    assert(units(0) == 0);
    lemma_extremes_are_extreme(a);
    lemma_extremes_are_extreme(b);
    assert(a.contains(peak(b)) ==> !less(peak(a), peak(b)));
    assert(b.contains(peak(a)) ==> !less(peak(b), peak(a)));
    assert(a.contains(trough(b)) ==> !less(trough(b), trough(a)));
    assert(b.contains(trough(a)) ==> !less(trough(a), trough(b)));
    assert(peak(a).exact() == peak(b).exact());
    lemma_same_value(peak(a), peak(b));
    assert(peak(a) == peak(b));
    assert(trough(a).exact() == trough(b).exact());
    lemma_same_value(trough(a), trough(b));
    if trough(a) != trough(b) {
        // Both are zeros, and both are among the rates.
        let (x, y) = (trough(a), trough(b));
        assert(x.bits == 0 || x.bits == SIGN);
        assert(y.bits == 0 || y.bits == SIGN);
        assert(x == zero || x == Binary64 { bits: SIGN });
        assert(y == zero || y == Binary64 { bits: SIGN });
        assert(a.contains(x) && a.contains(y));
        assert(mixes_zeros(a));
        // One lies above either, so the spread is the same.
        law_small_integers_are_exact(1);
        lemma_pow2_pos(1074);
    }
    assert forall|share: Binary64| #[trigger] uneven(a, share) == uneven(b, share) by {}
}

/// The order of partitions, consumers and producers does not matter to the observations on
/// imbalance. Uneven rates that hold both zeros are left out where the least rate is written out:
/// the sign of the zero that is written then depends on the order.
pub proof fn law_order_does_not_matter_to_imbalance(
    partitions: Seq<PartitionSnapshot>,
    polls: Seq<ConsumerPollSnapshot>,
    sends: Seq<ProducerSendSnapshot>,
    other_partitions: Seq<PartitionSnapshot>,
    other_polls: Seq<ConsumerPollSnapshot>,
    other_sends: Seq<ProducerSendSnapshot>,
)
    requires
        partitions.to_multiset() == other_partitions.to_multiset(),
        polls.to_multiset() == other_polls.to_multiset(),
        sends.to_multiset() == other_sends.to_multiset(),
        uneven(produced_rates(partitions), fraction(1, 2)) ==> !mixes_zeros(
            produced_rates(partitions),
        ),
        uneven(send_rates(sends), fraction(1, 2)) ==> !mixes_zeros(send_rates(sends)),
    ensures
        imbalance_observations(partitions, polls, sends) == imbalance_observations(
            other_partitions,
            other_polls,
            other_sends,
        ),
{
    lemma_same_members(partitions, other_partitions);
    lemma_same_members(polls, other_polls);
    lemma_same_members(sends, other_sends);
    lemma_produced_rates_within(partitions, other_partitions);
    lemma_produced_rates_within(other_partitions, partitions);
    lemma_consumed_rates_within(polls, other_polls);
    lemma_consumed_rates_within(other_polls, polls);
    lemma_send_rates_within(sends, other_sends);
    lemma_send_rates_within(other_sends, sends);
    lemma_order_of_rates(produced_rates(partitions), produced_rates(other_partitions));
    lemma_order_of_rates(consumed_rates(polls), consumed_rates(other_polls));
    lemma_order_of_rates(send_rates(sends), send_rates(other_sends));
    assert(uneven(produced_rates(partitions), fraction(1, 2)) == uneven(
        produced_rates(other_partitions),
        fraction(1, 2),
    ));
    assert(uneven(consumed_rates(polls), fraction(3, 10)) == uneven(
        consumed_rates(other_polls),
        fraction(3, 10),
    ));
    assert(uneven(send_rates(sends), fraction(1, 2)) == uneven(
        send_rates(other_sends),
        fraction(1, 2),
    ));
}

/// The rates of partitions are among those of a list that holds these partitions.
proof fn lemma_produced_rates_within(a: Seq<PartitionSnapshot>, b: Seq<PartitionSnapshot>)
    requires
        forall|p: PartitionSnapshot| #[trigger] a.contains(p) ==> b.contains(p),
    ensures
        forall|x: Binary64| #[trigger]
            produced_rates(a).contains(x) ==> produced_rates(b).contains(x),
{
    assert forall|x: Binary64| #[trigger] produced_rates(a).contains(x) implies produced_rates(
        b,
    ).contains(x) by {
        let i = choose|i: int| 0 <= i < produced_rates(a).len() && produced_rates(a)[i] == x;
        assert(a.contains(a[i]));
        let j = choose|j: int| 0 <= j < b.len() && b[j] == a[i];
        assert(produced_rates(b)[j] == x);
    }
}

/// The rates of consumers are among those of a list that holds these consumers.
proof fn lemma_consumed_rates_within(a: Seq<ConsumerPollSnapshot>, b: Seq<ConsumerPollSnapshot>)
    requires
        forall|p: ConsumerPollSnapshot| #[trigger] a.contains(p) ==> b.contains(p),
    ensures
        forall|x: Binary64| #[trigger]
            consumed_rates(a).contains(x) ==> consumed_rates(b).contains(x),
{
    assert forall|x: Binary64| #[trigger] consumed_rates(a).contains(x) implies consumed_rates(
        b,
    ).contains(x) by {
        let i = choose|i: int| 0 <= i < consumed_rates(a).len() && consumed_rates(a)[i] == x;
        assert(a.contains(a[i]));
        let j = choose|j: int| 0 <= j < b.len() && b[j] == a[i];
        assert(consumed_rates(b)[j] == x);
    }
}

/// The rates of producers are among those of a list that holds these producers.
proof fn lemma_send_rates_within(a: Seq<ProducerSendSnapshot>, b: Seq<ProducerSendSnapshot>)
    requires
        forall|p: ProducerSendSnapshot| #[trigger] a.contains(p) ==> b.contains(p),
    ensures
        forall|x: Binary64| #[trigger] send_rates(a).contains(x) ==> send_rates(b).contains(x),
{
    assert forall|x: Binary64| #[trigger] send_rates(a).contains(x) implies send_rates(b).contains(
        x,
    ) by {
        let i = choose|i: int| 0 <= i < send_rates(a).len() && send_rates(a)[i] == x;
        assert(a.contains(a[i]));
        let j = choose|j: int| 0 <= j < b.len() && b[j] == a[i];
        assert(send_rates(b)[j] == x);
    }
}

/// Where all partitions, all consumers and all producers go at the same rate, or there is no more
/// than one of them, there is nothing to observe on imbalance.
pub proof fn law_even_load_is_not_observed(
    partitions: Seq<PartitionSnapshot>,
    polls: Seq<ConsumerPollSnapshot>,
    sends: Seq<ProducerSendSnapshot>,
)
    requires
        all_equal(produced_rates(partitions)),
        all_equal(consumed_rates(polls)),
        all_equal(send_rates(sends)),
    ensures
        imbalance_observations(partitions, polls, sends) == Seq::<Observation>::empty(),
{
    law_share_is_at_most_one(1, 2);
    law_share_is_at_most_one(3, 10);
    law_equal_rates_are_even(produced_rates(partitions), fraction(1, 2));
    law_equal_rates_are_even(consumed_rates(polls), fraction(3, 10));
    law_equal_rates_are_even(send_rates(sends), fraction(1, 2));
    assert(imbalance_observations(partitions, polls, sends) =~= Seq::<Observation>::empty());
}

} // verus!
