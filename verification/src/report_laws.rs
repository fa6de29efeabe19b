//! What the observations of a report and its summary say of the figures of a run.
use vstd::prelude::*;
use vstd::string::*;
use vstd::arithmetic::power2::{lemma_pow2_pos, pow2};
use crate::binary64::{
    greater_of, law_exact_product, law_halves_are_exact, law_scaled_number_is_close,
    law_quotient_of_integers_is_close, law_small_integers_are_exact, less, of_integer, product,
    quotient, signed, total, Binary64,
};
use crate::report::{
    all_observations, backlog_observations, bottleneck, consumed_rates, falls_behind_observations,
    imbalance_observations, law_worst_partition_is_the_last_worst, lemma_extremes_are_extreme,
    lemma_finite_is_not_above_largest, lemma_same_value, mean_consumed_per_sec, peak,
    poll_observations, polling_observations, produced_rates, said, send_observations,
    send_rates, sending_observations, total_consumed_per_sec, total_lag, trough, uneven, warned,
    worst_lag, BenchmarkConfig, DiagnosticObservation, Observation, OverallMetrics, Severity,
};
use crate::rounding::{lemma_units_monotone, units, FRACTIONS, INFINITE};
use crate::stats::{ConsumerPollSnapshot, ProducerSendSnapshot};
use crate::text::{decimal, fixed0, fixed1};
use crate::tracker::PartitionSnapshot;

verus! {

/// Whether the list holds an observation of the given category and severity with the given text.
pub open spec fn reports(
    list: Seq<Observation>,
    category: Seq<char>,
    severity: Severity,
    message: Seq<char>,
) -> bool {
    list.contains(Observation { category, severity, message })
}

/// The summary names the first of four causes that applies, whatever the others are: a backlog
/// together with a high latency, an imbalance, the polling, and a high latency with hardly any
/// lag. It names none only where none of them applies.
pub proof fn law_summary_names_the_first_cause(
    list: Seq<Observation>,
    lag: nat,
    overall: OverallMetrics,
)
    ensures
        ({
            let late = overall.consumer_p99_us > 1000;
            let backlog = exists|i: int|
                0 <= i < list.len() && (#[trigger] list[i]).category == "backlog"@
                    && list[i].severity == Severity::Warning;
            let imbalance = exists|i: int|
                0 <= i < list.len() && (#[trigger] list[i]).category == "imbalance"@
                    && list[i].severity == Severity::Warning;
            let polling = exists|i: int|
                0 <= i < list.len() && (#[trigger] list[i]).category == "polling"@
                    && list[i].severity == Severity::Warning;
            let summary = bottleneck(list, lag, overall);
            &&& summary
                == "FIFO queue residence time (backlog). Messages wait in partition queues before consumption."@
                <==> backlog && late
            &&& summary == "Partition or consumer imbalance. Work not evenly distributed."@
                <==> imbalance && !(backlog && late)
            &&& summary
                == "Consumer polling inefficiency. High empty poll rate or slow poll responses."@
                <==> polling && !imbalance && !(backlog && late)
            &&& summary == "Broker/client/network latency. Low lag suggests not a backlog issue."@
                <==> late && lag < 10 && !backlog && !imbalance && !polling
            &&& summary
                == "No clear bottleneck detected. System operating within normal parameters."@
                <==> !imbalance && !polling && (late ==> !backlog && lag >= 10)
        }),
{
    lemma_summaries_differ();
}

/// The summaries are told apart by their first letters.
proof fn lemma_summaries_differ()
    ensures
        "FIFO queue residence time (backlog). Messages wait in partition queues before consumption."@[0]
            == 'F',
        "Partition or consumer imbalance. Work not evenly distributed."@[0] == 'P',
        "Consumer polling inefficiency. High empty poll rate or slow poll responses."@[0] == 'C',
        "Broker/client/network latency. Low lag suggests not a backlog issue."@[0] == 'B',
        "No clear bottleneck detected. System operating within normal parameters."@[0] == 'N',
{
    reveal_strlit(
        "FIFO queue residence time (backlog). Messages wait in partition queues before consumption.",
    );
    reveal_strlit("Partition or consumer imbalance. Work not evenly distributed.");
    reveal_strlit("Consumer polling inefficiency. High empty poll rate or slow poll responses.");
    reveal_strlit("Broker/client/network latency. Low lag suggests not a backlog issue.");
    reveal_strlit("No clear bottleneck detected. System operating within normal parameters.");
}

/// Without a warning of a backlog, an imbalance is named at every latency and every lag.
pub proof fn law_latency_does_not_hide_an_imbalance(
    list: Seq<Observation>,
    at: int,
    lag: nat,
    overall: OverallMetrics,
    other_lag: nat,
    other: OverallMetrics,
)
    requires
        0 <= at < list.len(),
        list[at].category == "imbalance"@ && list[at].severity == Severity::Warning,
        forall|i: int|
            0 <= i < list.len() ==> !((#[trigger] list[i]).category == "backlog"@
                && list[i].severity == Severity::Warning),
    ensures
        bottleneck(list, lag, overall) == bottleneck(list, other_lag, other),
        bottleneck(list, lag, overall)
            == "Partition or consumer imbalance. Work not evenly distributed."@,
{
    law_summary_names_the_first_cause(list, lag, overall);
    law_summary_names_the_first_cause(list, other_lag, other);
}

/// The summary goes by warnings alone: an observation that is none changes nothing in it.
pub proof fn law_summary_goes_by_warnings(
    list: Seq<Observation>,
    other: Observation,
    lag: nat,
    overall: OverallMetrics,
)
    requires
        other.severity != Severity::Warning,
    ensures
        bottleneck(list.push(other), lag, overall) == bottleneck(list, lag, overall),
{
    let more = list.push(other);
    assert forall|category: Seq<char>| #[trigger] warned(more, category) == warned(
        list,
        category,
    ) by {
        if warned(list, category) {
            let i = choose|i: int|
                0 <= i < list.len() && (#[trigger] list[i]).category == category
                    && list[i].severity == Severity::Warning;
            assert(more[i] == list[i]);
        }
        if warned(more, category) {
            let i = choose|i: int|
                0 <= i < more.len() && (#[trigger] more[i]).category == category
                    && more[i].severity == Severity::Warning;
            assert(list[i] == more[i]);
        }
    }
}

/// The producers are judged one by one: what is said of two groups of them is what is said of
/// either.
pub proof fn law_producers_are_judged_one_by_one(
    a: Seq<ProducerSendSnapshot>,
    b: Seq<ProducerSendSnapshot>,
    batch_size: u32,
)
    ensures
        sending_observations(a + b, batch_size) == sending_observations(a, batch_size)
            + sending_observations(b, batch_size),
        sending_observations(Seq::empty(), batch_size) == Seq::<Observation>::empty(),
    decreases b.len(),
{
    if b.len() == 0 {
        assert(a + b =~= a);
        assert(sending_observations(b, batch_size) =~= Seq::<Observation>::empty());
        assert(sending_observations(a, batch_size) =~= sending_observations(a, batch_size)
            + Seq::empty());
    } else {
        assert((a + b).drop_last() =~= a + b.drop_last());
        assert((a + b).last() == b.last());
        law_producers_are_judged_one_by_one(a, b.drop_last(), batch_size);
        assert(sending_observations(a + b, batch_size) =~= sending_observations(a, batch_size)
            + sending_observations(b, batch_size));
    }
}

/// What is said of one producer. There is a warning where the slowest hundredth of its sends took
/// more than five milliseconds, and its text gives that time; there is a hint where it could send
/// in batches but sends fewer than one and a half messages at a time.
pub proof fn law_producer_is_judged_by_its_figures(send: ProducerSendSnapshot, batch_size: u32)
    ensures
        ({
            let avg = send.messages_per_send_avg;
            let slow = send.send_duration_p99_us > 5_000;
            let unused = batch_size > 1 && !avg.nan() && avg.exact() * 2 < 3 * pow2(1074);
            let warning = Observation {
                category: "send"@,
                severity: Severity::Warning,
                message: "Producer "@ + decimal(send.producer_id as nat) + " send p99="@ + decimal(
                    send.send_duration_p99_us as nat,
                ) + "us. Network or server pressure."@,
            };
            let hint = Observation {
                category: "batching"@,
                severity: Severity::Info,
                message: "Producer "@ + decimal(send.producer_id as nat) + " batch_size="@
                    + decimal(batch_size as nat) + " but avg msgs/send="@ + fixed1(avg)
                    + ". Batching not utilized."@,
            };
            let found = sending_observations(seq![send], batch_size);
            &&& slow && unused ==> found == seq![hint, warning]
            &&& slow && !unused ==> found == seq![warning]
            &&& !slow && unused ==> found == seq![hint]
            &&& !slow && !unused ==> found == Seq::<Observation>::empty()
        }),
{
    let one = seq![send];
    let found = sending_observations(one, batch_size);
    assert(one.drop_last() =~= Seq::<ProducerSendSnapshot>::empty());
    assert(sending_observations(one.drop_last(), batch_size) =~= Seq::<Observation>::empty());
    assert(one.last() == send);
    assert(found =~= send_observations(send, batch_size));
    law_halves_are_exact();
}

/// The report warns of a slow producer, in the given words, if and only if there is a producer
/// whose slowest hundredth of sends took more than five milliseconds and whose number and time
/// those words give. No other figure of the run has a part in it.
pub proof fn law_slow_producers_are_warned_of(
    sends: Seq<ProducerSendSnapshot>,
    batch_size: u32,
    message: Seq<char>,
)
    ensures
        reports(sending_observations(sends, batch_size), "send"@, Severity::Warning, message)
            <==> exists|i: int|
            0 <= i < sends.len() && (#[trigger] sends[i]).send_duration_p99_us > 5_000 && message
                == "Producer "@ + decimal(sends[i].producer_id as nat) + " send p99="@ + decimal(
                sends[i].send_duration_p99_us as nat,
            ) + "us. Network or server pressure."@,
    decreases sends.len(),
{
    let wanted = Observation { category: "send"@, severity: Severity::Warning, message };
    let all = sending_observations(sends, batch_size);
    if sends.len() == 0 {
        assert(all =~= Seq::<Observation>::empty());
    } else {
        let before = sends.drop_last();
        let last = sends.last();
        law_slow_producers_are_warned_of(before, batch_size, message);
        law_producer_is_judged_by_its_figures(last, batch_size);
        law_producers_are_judged_one_by_one(before, seq![last], batch_size);
        assert(before + seq![last] =~= sends);
        let (x, y) = (
            sending_observations(before, batch_size),
            sending_observations(seq![last], batch_size),
        );
        lemma_in_either(x, y, wanted);
        assert(sends[sends.len() - 1] == last);
        let text = "Producer "@ + decimal(last.producer_id as nat) + " send p99="@ + decimal(
            last.send_duration_p99_us as nat,
        ) + "us. Network or server pressure."@;
        assert(y.contains(wanted) <==> last.send_duration_p99_us > 5_000 && message == text) by {
            if last.send_duration_p99_us > 5_000 && message == text {
                assert(y[y.len() - 1] == wanted);
            }
        }
        if x.contains(wanted) {
            let i = choose|i: int|
                0 <= i < before.len() && (#[trigger] before[i]).send_duration_p99_us > 5_000
                    && message == "Producer "@ + decimal(before[i].producer_id as nat)
                    + " send p99="@ + decimal(before[i].send_duration_p99_us as nat)
                    + "us. Network or server pressure."@;
            assert(sends[i] == before[i]);
        }
        if exists|i: int|
            0 <= i < sends.len() && (#[trigger] sends[i]).send_duration_p99_us > 5_000 && message
                == "Producer "@ + decimal(sends[i].producer_id as nat) + " send p99="@ + decimal(
                sends[i].send_duration_p99_us as nat,
            ) + "us. Network or server pressure."@ {
            let i = choose|i: int|
                0 <= i < sends.len() && (#[trigger] sends[i]).send_duration_p99_us > 5_000
                    && message == "Producer "@ + decimal(sends[i].producer_id as nat)
                    + " send p99="@ + decimal(sends[i].send_duration_p99_us as nat)
                    + "us. Network or server pressure."@;
            if i < before.len() {
                assert(before[i] == sends[i]);
            }
        }
    }
}

/// What two lists hold together is what either holds.
proof fn lemma_in_either(a: Seq<Observation>, b: Seq<Observation>, x: Observation)
    ensures
        (a + b).contains(x) <==> a.contains(x) || b.contains(x),
{
    let both = a + b;
    if a.contains(x) {
        let i = choose|i: int| 0 <= i < a.len() && a[i] == x;
        assert(both[i] == x);
    }
    if b.contains(x) {
        let i = choose|i: int| 0 <= i < b.len() && b[i] == x;
        assert(both[a.len() + i] == x);
    }
    if both.contains(x) {
        let i = choose|i: int| 0 <= i < both.len() && both[i] == x;
        if i < a.len() {
            assert(a[i] == x);
        } else {
            assert(b[i - a.len()] == x);
        }
    }
}

/// The times of a producer's other sends, their number and their rate do not matter to what is
/// said of it.
pub proof fn law_other_send_times_do_not_matter(
    a: ProducerSendSnapshot,
    b: ProducerSendSnapshot,
    batch_size: u32,
)
    requires
        a.producer_id == b.producer_id,
        a.send_duration_p99_us == b.send_duration_p99_us,
        a.messages_per_send_avg == b.messages_per_send_avg,
    ensures
        sending_observations(seq![a], batch_size) == sending_observations(seq![b], batch_size),
{
    law_producer_is_judged_by_its_figures(a, batch_size);
    law_producer_is_judged_by_its_figures(b, batch_size);
}

/// The consumers are judged one by one: what is said of two groups of them is what is said of
/// either.
pub proof fn law_consumers_are_judged_one_by_one(
    a: Seq<ConsumerPollSnapshot>,
    b: Seq<ConsumerPollSnapshot>,
    lag: nat,
)
    ensures
        polling_observations(a + b, lag) == polling_observations(a, lag) + polling_observations(
            b,
            lag,
        ),
        polling_observations(Seq::empty(), lag) == Seq::<Observation>::empty(),
    decreases b.len(),
{
    if b.len() == 0 {
        assert(a + b =~= a);
        assert(polling_observations(b, lag) =~= Seq::<Observation>::empty());
        assert(polling_observations(a, lag) =~= polling_observations(a, lag) + Seq::empty());
    } else {
        assert((a + b).drop_last() =~= a + b.drop_last());
        assert((a + b).last() == b.last());
        law_consumers_are_judged_one_by_one(a, b.drop_last(), lag);
        assert(polling_observations(a + b, lag) =~= polling_observations(a, lag)
            + polling_observations(b, lag));
    }
}

/// What is said of one consumer: a warning where more than half of its polls, and more than a
/// hundred a second, bring nothing; a hint where it gets fewer than five messages a poll, and
/// fewer than ten in nearly all polls, though more than a hundred wait; and a warning where the
/// slowest hundredth of its polls took more than ten milliseconds.
pub proof fn law_consumer_is_judged_by_its_figures(poll: ConsumerPollSnapshot, lag: nat)
    ensures
        ({
            let (ratio, rate, avg) = (
                poll.empty_poll_ratio,
                poll.polls_per_sec,
                poll.messages_per_poll_avg,
            );
            let vain = !ratio.nan() && ratio.exact() * 2 > pow2(1074) && !rate.nan()
                && rate.exact() > 100 * pow2(1074);
            let small = lag > 100 && !avg.nan() && avg.exact() < 5 * pow2(1074)
                && poll.messages_per_poll_p99 < 10;
            let slow = poll.poll_duration_p99_us > 10_000;
            let none = Seq::<Observation>::empty();
            let empty_polls = Observation {
                category: "polling"@,
                severity: Severity::Warning,
                message: "Consumer "@ + decimal(poll.consumer_id as nat) + " has "@ + fixed0(
                    product(ratio, of_integer(100)),
                ) + "% empty polls at "@ + fixed0(rate)
                    + " polls/s. Consider increasing poll_interval_us."@,
            };
            let small_batches = Observation {
                category: "polling"@,
                severity: Severity::Info,
                message: "Consumer "@ + decimal(poll.consumer_id as nat)
                    + " getting small batches ("@ + fixed1(avg) + " avg) despite lag="@ + decimal(
                    lag,
                ) + ". May indicate partition assignment issues."@,
            };
            let slow_polls = Observation {
                category: "polling"@,
                severity: Severity::Warning,
                message: "Consumer "@ + decimal(poll.consumer_id as nat)
                    + " poll p99 latency is "@ + decimal(poll.poll_duration_p99_us as nat)
                    + "us. Network or server delay."@,
            };
            let found = polling_observations(seq![poll], lag);
            found == (if vain {
                seq![empty_polls]
            } else {
                none
            }) + (if small {
                seq![small_batches]
            } else {
                none
            }) + (if slow {
                seq![slow_polls]
            } else {
                none
            })
        }),
{
    let one = seq![poll];
    let found = polling_observations(one, lag);
    assert(one.drop_last() =~= Seq::<ConsumerPollSnapshot>::empty());
    assert(polling_observations(one.drop_last(), lag) =~= Seq::<Observation>::empty());
    assert(one.last() == poll);
    assert(found =~= poll_observations(poll, lag));
    law_halves_are_exact();
    law_small_integers_are_exact(5);
    law_small_integers_are_exact(100);
}

/// The lag of a run is the sum of the present lags of its partitions.
pub proof fn law_lags_add_up(a: Seq<PartitionSnapshot>, b: Seq<PartitionSnapshot>)
    ensures
        total_lag(a + b) == total_lag(a) + total_lag(b),
        total_lag(Seq::empty()) == 0,
        forall|p: PartitionSnapshot| #[trigger] total_lag(seq![p]) == p.current_lag,
    decreases b.len(),
{
    assert forall|p: PartitionSnapshot| #[trigger] total_lag(seq![p]) == p.current_lag by {
        assert(seq![p].drop_last() =~= Seq::<PartitionSnapshot>::empty());
        assert(total_lag(seq![p].drop_last()) == 0);
    }
    if b.len() == 0 {
        assert(a + b =~= a);
    } else {
        assert((a + b).drop_last() =~= a + b.drop_last());
        assert((a + b).last() == b.last());
        law_lags_add_up(a, b.drop_last());
    }
}

/// The partitions are judged one by one as to whether they fall behind.
pub proof fn law_partitions_fall_behind_one_by_one(
    a: Seq<PartitionSnapshot>,
    b: Seq<PartitionSnapshot>,
)
    ensures
        falls_behind_observations(a + b) == falls_behind_observations(a)
            + falls_behind_observations(b),
        falls_behind_observations(Seq::empty()) == Seq::<Observation>::empty(),
    decreases b.len(),
{
    if b.len() == 0 {
        assert(a + b =~= a);
        assert(falls_behind_observations(b) =~= Seq::<Observation>::empty());
        assert(falls_behind_observations(a) =~= falls_behind_observations(a) + Seq::empty());
    } else {
        assert((a + b).drop_last() =~= a + b.drop_last());
        assert((a + b).last() == b.last());
        law_partitions_fall_behind_one_by_one(a, b.drop_last());
        assert(falls_behind_observations(a + b) =~= falls_behind_observations(a)
            + falls_behind_observations(b));
    }
}

/// What is said of one partition that is written to and read from: it falls behind where more than
/// a hundred messages were written, at more than eleven tenths of the rate at which it is read.
pub proof fn law_partition_falls_behind_by_its_figures(p: PartitionSnapshot)
    ensures
        ({
            let behind = p.produced_count > 100 && less(
                product(p.consumed_per_sec, quotient(of_integer(11), of_integer(10))),
                p.produced_per_sec,
            );
            let warning = Observation {
                category: "backlog"@,
                severity: Severity::Warning,
                message: "Partition "@ + decimal(p.partition_id as nat)
                    + " falling behind: produce="@ + fixed0(p.produced_per_sec) + "/s, consume="@
                    + fixed0(p.consumed_per_sec) + "/s"@,
            };
            falls_behind_observations(seq![p]) == if behind {
                seq![warning]
            } else {
                Seq::empty()
            }
        }),
{
    let one = seq![p];
    assert(one.drop_last() =~= Seq::<PartitionSnapshot>::empty());
    assert(falls_behind_observations(one.drop_last()) =~= Seq::<Observation>::empty());
    assert(one.last() == p);
    assert(falls_behind_observations(one) =~= falls_behind_observations(one));
}

/// In numbers: a partition that is not read at all falls behind as soon as it is written to, and
/// one that is read falls behind at more than eleven tenths of that rate and not at less, up to
/// rounding by one part in 2^50. It never does with a hundred messages or fewer.
pub proof fn law_falling_behind_in_numbers(p: PartitionSnapshot)
    requires
        !p.consumed_per_sec.nan() && !p.consumed_per_sec.infinite()
            && !p.consumed_per_sec.negative(),
        p.consumed_per_sec.exact() == 0 || p.consumed_per_sec.exact() >= 2 * FRACTIONS,
        p.consumed_per_sec.exact() * 22 < 10 * units(INFINITE as nat),
    ensures
        ({
            let (written, read) = (p.produced_per_sec.exact(), p.consumed_per_sec.exact());
            let found = falls_behind_observations(seq![p]);
            &&& p.produced_count <= 100 || p.produced_per_sec.nan() ==> found.len() == 0
            &&& p.produced_count > 100 && !p.produced_per_sec.nan() && (written * 10)
                * 0x4_0000_0000_0000 > (read * 11) * 0x4_0000_0000_0001 ==> found.len() == 1
            &&& (written * 10) * 0x4_0000_0000_0000 <= (read * 11) * 0x3_ffff_ffff_ffff
                ==> found.len() == 0
        }),
{
    law_partition_falls_behind_by_its_figures(p);
    let share = quotient(of_integer(11), of_integer(10));
    law_quotient_of_integers_is_close(11, 10);
    if p.consumed_per_sec.exact() == 0 {
        lemma_zero_stays_zero(p.consumed_per_sec, share);
    } else {
        law_scaled_number_is_close(p.consumed_per_sec, 11, 10);
    }
}

/// Any share of nothing is nothing.
proof fn lemma_zero_stays_zero(x: Binary64, share: Binary64)
    requires
        !x.nan() && !x.infinite() && !x.negative() && x.exact() == 0,
        !share.nan() && !share.infinite(),
    ensures
        !product(x, share).nan(),
        product(x, share).exact() == 0,
{
    assert(units(0) == 0);
    let b = units(share.magnitude());
    assert(units(x.magnitude()) * b == 0) by (nonlinear_arith)
        requires
            units(x.magnitude()) == 0,
    ;
    assert(0 * pow2(1074) == 0);
    law_exact_product(x, share, 0);
    assert(product(x, share) == signed(x.negative() != share.negative(), 0));
}

/// The rate at which the partitions are read is the sum of their rates, added one after the other.
pub proof fn law_rates_are_added(partitions: Seq<PartitionSnapshot>, p: PartitionSnapshot)
    ensures
        total_consumed_per_sec(Seq::empty()) == (Binary64 { bits: 0 }),
        total_consumed_per_sec(partitions.push(p)) == total(
            total_consumed_per_sec(partitions),
            p.consumed_per_sec,
        ),
        mean_consumed_per_sec(partitions.push(p)) == quotient(
            total(total_consumed_per_sec(partitions), p.consumed_per_sec),
            of_integer(partitions.len() + 1),
        ),
{
    assert(partitions.push(p).drop_last() =~= partitions);
}

/// What is said of a backlog. `worst` is the last of the partitions that have had the largest lag,
/// `lag` the present lag of all of them and `mean` the rate at which they are read on average:
/// there is a warning of the largest lag where it was more than a thousand; a hint at the wait
/// where the lag is more than a hundred, the latency more than a millisecond, and the time in
/// which the lag is worked off at that rate more than half of the median latency; and what is said
/// of the partitions that fall behind.
pub proof fn law_backlog_is_judged_by_figures(
    partitions: Seq<PartitionSnapshot>,
    overall: OverallMetrics,
    worst: int,
)
    requires
        0 <= worst < partitions.len(),
        forall|i: int|
            0 <= i < partitions.len() ==> (#[trigger] partitions[i]).max_lag
                <= partitions[worst].max_lag,
        forall|i: int|
            worst < i < partitions.len() ==> (#[trigger] partitions[i]).max_lag
                < partitions[worst].max_lag,
    ensures
        ({
            let none = Seq::<Observation>::empty();
            let max = partitions[worst].max_lag;
            let lag = total_lag(partitions);
            let mean = quotient(
                total_consumed_per_sec(partitions),
                of_integer(partitions.len()),
            );
            let median = of_integer(overall.consumer_p50_us as nat);
            let wait = product(quotient(of_integer(lag), mean), of_integer(1_000_000));
            let waits = lag > 100 && overall.consumer_p99_us > 1000 && !mean.nan() && mean.exact()
                > 0 && less(product(median, quotient(of_integer(1), of_integer(2))), wait);
            let warning = Observation {
                category: "backlog"@,
                severity: Severity::Warning,
                message: "High max lag: "@ + decimal(max as nat) + " msgs (partition "@ + decimal(
                    partitions[worst].partition_id as nat,
                ) + "). Latency likely includes queue wait time."@,
            };
            let hint = Observation {
                category: "backlog"@,
                severity: Severity::Info,
                message: "Queue wait estimate: "@ + fixed0(wait) + "us (lag="@ + decimal(lag)
                    + " / rate="@ + fixed0(mean) + "/s). This explains ~"@ + fixed0(
                    product(quotient(wait, median), of_integer(100)),
                ) + "% of p50 latency."@,
            };
            backlog_observations(partitions, overall) == (if max > 1000 {
                seq![warning]
            } else {
                none
            }) + (if waits {
                seq![hint]
            } else {
                none
            }) + falls_behind_observations(partitions)
        }),
{
    let at = law_worst_partition_is_the_last_worst(partitions);
    assert(partitions[at].max_lag <= partitions[worst].max_lag);
    assert(partitions[worst].max_lag <= worst_lag(partitions));
    assert(at == worst);
    assert(units(0) == 0);
    lemma_pow2_pos(1074);
}

/// Partitions, consumers and producers are compared each among themselves.
pub proof fn law_imbalances_are_judged_apart(
    partitions: Seq<PartitionSnapshot>,
    polls: Seq<ConsumerPollSnapshot>,
    sends: Seq<ProducerSendSnapshot>,
)
    ensures
        imbalance_observations(partitions, polls, sends) == imbalance_observations(
            partitions,
            Seq::empty(),
            Seq::empty(),
        ) + imbalance_observations(Seq::empty(), polls, Seq::empty()) + imbalance_observations(
            Seq::empty(),
            Seq::empty(),
            sends,
        ),
{
    assert(imbalance_observations(partitions, polls, sends) =~= imbalance_observations(
        partitions,
        Seq::empty(),
        Seq::empty(),
    ) + imbalance_observations(Seq::empty(), polls, Seq::empty()) + imbalance_observations(
        Seq::empty(),
        Seq::empty(),
        sends,
    ));
}

/// Whether some rates are numbers from zero up, and the two given are the least and the greatest
/// of them.
pub open spec fn least_and_greatest(
    rates: Seq<Binary64>,
    least: Binary64,
    greatest: Binary64,
) -> bool {
    &&& rates.contains(least)
    &&& rates.contains(greatest)
    &&& forall|x: Binary64| #[trigger]
        rates.contains(x) ==> {
            &&& !x.nan() && !x.infinite() && !x.negative()
            &&& least.exact() <= x.exact() <= greatest.exact()
        }
}

/// The extremes of rates are the least and the greatest of them.
pub proof fn law_extremes_are_found(rates: Seq<Binary64>, least: Binary64, greatest: Binary64)
    requires
        least_and_greatest(rates, least, greatest),
    ensures
        peak(rates) == greatest,
        trough(rates) == least,
{
    lemma_extremes_are_extreme(rates);
    assert(units(0) == 0);
    assert(rates.contains(greatest));
    assert(!less(peak(rates), greatest));
    assert(!less(least, trough(rates)));
    lemma_finite_is_not_above_largest(least);
    assert(greatest.exact() >= 0);
    assert(peak(rates).exact() == greatest.exact());
    lemma_same_value(peak(rates), greatest);
    assert(trough(rates).exact() == least.exact());
    lemma_same_value(trough(rates), least);
}

/// Rates are uneven where the least is clearly below the given share of the greatest, and even
/// where it is clearly not; the margin is that of rounding, one part in 2^50.
pub proof fn law_uneven_rates_in_numbers(
    rates: Seq<Binary64>,
    least: Binary64,
    greatest: Binary64,
    n: nat,
    d: nat,
)
    requires
        rates.len() > 1,
        least_and_greatest(rates, least, greatest),
        0 < n <= u64::MAX,
        0 < d <= u64::MAX,
        2 * n <= d,
        greatest.exact() == 0 || greatest.exact() * n >= 2 * d * FRACTIONS,
    ensures
        ({
            let share = quotient(of_integer(n), of_integer(d));
            let (low, high) = (least.exact() * d, greatest.exact() * n);
            &&& greatest.exact() == 0 ==> !uneven(rates, share)
            &&& low * 0x4_0000_0000_0000 < high * 0x3_ffff_ffff_ffff ==> uneven(rates, share)
            &&& low * 0x4_0000_0000_0000 >= high * 0x4_0000_0000_0001 ==> !uneven(rates, share)
        }),
{
    law_extremes_are_found(rates, least, greatest);
    let share = quotient(of_integer(n), of_integer(d));
    let (x, top) = (greatest.exact(), units(INFINITE as nat));
    let y = least.exact();
    assert(units(0) == 0);
    assert(rates.contains(greatest) && rates.contains(least));
    if x == 0 {
        assert(x * n == 0 && y * d >= 0) by (nonlinear_arith)
            requires
                x == 0,
                y >= 0,
        ;
    } else {
        lemma_units_monotone(greatest.magnitude(), INFINITE as nat);
        assert(x * n * 2 < d * top) by (nonlinear_arith)
            requires
                0 < x < top,
                0 < 2 * n <= d,
        ;
        law_scaled_number_is_close(greatest, n, d);
        let r = product(greatest, share).exact();
        assert(y < r <==> y * d < r * d) by (nonlinear_arith)
            requires
                d > 0,
        ;
        assert(x > 0 ==> x * n > 0) by (nonlinear_arith)
            requires
                n > 0,
        ;
    }
}

/// What is said of partitions that are written to at uneven rates: a warning where the least is
/// below half of the greatest, with both rates and how many times the one the other is.
pub proof fn law_uneven_partitions_are_warned_of(
    partitions: Seq<PartitionSnapshot>,
    least: Binary64,
    greatest: Binary64,
)
    requires
        partitions.len() > 1,
        least_and_greatest(
            Seq::new(partitions.len(), |i: int| partitions[i].produced_per_sec),
            least,
            greatest,
        ),
    ensures
        ({
            let found = imbalance_observations(partitions, Seq::empty(), Seq::empty());
            let below = greatest.exact() > 0 && less(
                least,
                product(greatest, quotient(of_integer(1), of_integer(2))),
            );
            let base = greater_of(least, of_integer(1));
            let warning = Observation {
                category: "imbalance"@,
                severity: Severity::Warning,
                message: "Partition imbalance: min="@ + fixed0(least) + "/s, max="@ + fixed0(
                    greatest,
                ) + "/s (ratio "@ + fixed1(quotient(greatest, base)) + "x)"@,
            };
            found == if below {
                seq![warning]
            } else {
                Seq::empty()
            }
        }),
{
    let rates = Seq::new(partitions.len(), |i: int| partitions[i].produced_per_sec);
    assert(rates =~= produced_rates(partitions));
    law_extremes_are_found(rates, least, greatest);
    assert(rates.contains(greatest));
    assert(units(0) == 0);
    let found = imbalance_observations(partitions, Seq::empty(), Seq::empty());
    assert(found =~= found + Seq::empty() + Seq::empty());
}

/// What is said of consumers that take messages at uneven rates: a warning where the least is
/// below three tenths of the greatest, with how many times the one the other is. The rate of a
/// consumer is what a poll brings it, times its polls per second.
pub proof fn law_uneven_consumers_are_warned_of(
    polls: Seq<ConsumerPollSnapshot>,
    least: Binary64,
    greatest: Binary64,
)
    requires
        polls.len() > 1,
        least_and_greatest(
            Seq::new(
                polls.len(),
                |i: int| product(polls[i].messages_per_poll_avg, polls[i].polls_per_sec),
            ),
            least,
            greatest,
        ),
    ensures
        ({
            let found = imbalance_observations(Seq::empty(), polls, Seq::empty());
            let below = greatest.exact() > 0 && less(
                least,
                product(greatest, quotient(of_integer(3), of_integer(10))),
            );
            let base = greater_of(least, of_integer(1));
            let warning = Observation {
                category: "imbalance"@,
                severity: Severity::Warning,
                message: "Consumer imbalance: some consumers processing "@ + fixed1(
                    quotient(greatest, base),
                ) + "x more than others"@,
            };
            found == if below {
                seq![warning]
            } else {
                Seq::empty()
            }
        }),
{
    let rates = Seq::new(
        polls.len(),
        |i: int| product(polls[i].messages_per_poll_avg, polls[i].polls_per_sec),
    );
    assert(rates =~= consumed_rates(polls));
    law_extremes_are_found(rates, least, greatest);
    assert(rates.contains(greatest));
    assert(units(0) == 0);
}

/// What is said of producers that send at uneven rates: a hint where the least is below half of
/// the greatest, with both rates.
pub proof fn law_uneven_producers_are_pointed_out(
    sends: Seq<ProducerSendSnapshot>,
    least: Binary64,
    greatest: Binary64,
)
    requires
        sends.len() > 1,
        least_and_greatest(
            Seq::new(sends.len(), |i: int| sends[i].sends_per_sec),
            least,
            greatest,
        ),
    ensures
        ({
            let found = imbalance_observations(Seq::empty(), Seq::empty(), sends);
            let below = greatest.exact() > 0 && less(
                least,
                product(greatest, quotient(of_integer(1), of_integer(2))),
            );
            let hint = Observation {
                category: "imbalance"@,
                severity: Severity::Info,
                message: "Producer rate variance: min="@ + fixed0(least) + "/s, max="@ + fixed0(
                    greatest,
                ) + "/s"@,
            };
            found == if below {
                seq![hint]
            } else {
                Seq::empty()
            }
        }),
{
    let rates = Seq::new(sends.len(), |i: int| sends[i].sends_per_sec);
    assert(rates =~= send_rates(sends));
    law_extremes_are_found(rates, least, greatest);
    assert(rates.contains(greatest));
    assert(units(0) == 0);
}

/// One alone is never uneven.
pub proof fn law_one_alone_is_even(
    p: PartitionSnapshot,
    poll: ConsumerPollSnapshot,
    send: ProducerSendSnapshot,
)
    ensures
        imbalance_observations(seq![p], seq![poll], seq![send]) == Seq::<Observation>::empty(),
{
}

/// A report says all there is to say of the run and nothing else: of its backlog first, then of
/// imbalances, of each consumer and of each producer. The consumers are judged by the lag of the
/// partitions, the producers by the size of a batch.
pub proof fn law_report_has_four_parts(
    config: BenchmarkConfig,
    overall: OverallMetrics,
    partitions: Seq<PartitionSnapshot>,
    polls: Seq<ConsumerPollSnapshot>,
    sends: Seq<ProducerSendSnapshot>,
)
    ensures
        ({
            let all = all_observations(config, overall, partitions, polls, sends);
            let backlog = backlog_observations(partitions, overall);
            let imbalance = imbalance_observations(partitions, polls, sends);
            let polling = polling_observations(polls, total_lag(partitions));
            let sending = sending_observations(sends, config.batch_size);
            let (a, b, c) = (
                backlog.len(),
                backlog.len() + imbalance.len(),
                backlog.len() + imbalance.len() + polling.len(),
            );
            &&& all.len() == c + sending.len()
            &&& forall|i: int| 0 <= i < a ==> #[trigger] all[i] == backlog[i]
            &&& forall|i: int| a <= i < b ==> #[trigger] all[i] == imbalance[i - a]
            &&& forall|i: int| b <= i < c ==> #[trigger] all[i] == polling[i - b]
            &&& forall|i: int| c <= i < all.len() ==> #[trigger] all[i] == sending[i - c]
        }),
{
}

/// A list of observations says what each of them says, in their order.
pub proof fn law_every_observation_is_said(list: Seq<DiagnosticObservation>, i: int)
    requires
        0 <= i < list.len(),
    ensures
        said(list).len() == list.len(),
        said(list)[i].category == list[i].category@,
        said(list)[i].severity == list[i].severity,
        said(list)[i].message == list[i].message@,
{
}

} // verus!
