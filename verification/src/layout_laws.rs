//! What stands where in the lines of a run.
use vstd::prelude::*;
use vstd::string::*;
use crate::banner::{configuration_lines, topology_lines, RunOptions};
use crate::binary64::{of_integer, product, quotient, Binary64};
use crate::histogram::{recorded, SampleHistogram};
use crate::report::{said, BenchmarkConfig, DiagnosticReport, Observation, Severity};
use crate::report_text::{
    observation_list, observation_text, partition_header, partition_row, partition_table,
    poll_header, poll_row, poll_table, report_lines, send_header, send_row, send_table,
};
use crate::results::{
    all_consumer_lines, all_producer_lines, consumer_lines, consumer_result_lines, idle_count,
    metrics_of, per_consumer_lines, per_producer_lines, producer_lines, producer_result_lines,
    reading, ActorSummary, ConsumerTotals, LatencyReading,
};
use crate::rounding::units;
use crate::stats::{ConsumerPollSnapshot, ProducerSendSnapshot};
use crate::text::{bracketed, decimal, fixed0, fixed1, right_aligned};
use crate::topology::partitions_of;
use crate::tracker::PartitionSnapshot;

verus! {

/// The configuration is told in thirteen lines, a blank one at the end. The consumers are those
/// that run: none where there are only producers. No target is no limit.
pub proof fn law_configuration_is_told(c: BenchmarkConfig, o: RunOptions)
    ensures
        ({
            let lines = configuration_lines(c, o);
            &&& lines.len() == 13
            &&& lines[0] == "=== Minimal Rust Benchmark ==="@
            &&& lines[1] == "Messages: "@ + decimal(c.messages as nat)
            &&& lines[2] == "Message size: "@ + decimal(c.message_size as nat) + " bytes"@
            &&& lines[3] == "Producers (P): "@ + decimal(c.producers as nat)
            &&& lines[4] == "Partitions (N): "@ + decimal(c.partitions as nat)
            &&& lines[5] == "Redundancy (R): "@ + decimal(c.redundancy as nat)
            &&& c.producer_only ==> lines[6] == "Consumers: "@ + decimal(0)
            &&& !c.producer_only ==> lines[6] == "Consumers: "@ + decimal(c.consumers as nat)
            &&& o.throughput == 0 ==> lines[7] == "Target throughput: "@ + "unlimited"@
                + " msg/s"@
            &&& o.throughput > 0 ==> lines[7] == "Target throughput: "@ + decimal(
                o.throughput as nat,
            ) + " msg/s"@
            &&& lines[8] == "Poll interval: "@ + decimal(c.poll_interval_us as nat) + "us"@
            &&& o.verbose ==> lines[9] == "Verbose: "@ + "true"@
            &&& !o.verbose ==> lines[9] == "Verbose: "@ + "false"@
            &&& c.balanced ==> lines[10] == "Balanced partitioning: "@ + "true"@
            &&& !c.balanced ==> lines[10] == "Balanced partitioning: "@ + "false"@
            &&& o.diagnostics ==> lines[11] == "Diagnostics: "@ + "true"@
            &&& !o.diagnostics ==> lines[11] == "Diagnostics: "@ + "false"@
            &&& lines[12] == ""@
        }),
{
}

/// The topology is told in one line where the server routes the messages, and otherwise in one
/// line for each producer, below a heading; a blank line follows.
pub proof fn law_topology_is_told(c: BenchmarkConfig)
    ensures
        ({
            let lines = topology_lines(c);
            &&& lines.last() == ""@
            &&& c.balanced ==> lines.len() == 2 && lines[0]
                == "Partition assignments: balanced (server routes to all "@ + decimal(
                c.partitions as nat,
            ) + " partitions)"@
            &&& !c.balanced ==> {
                &&& lines.len() == c.producers + 2
                &&& lines[0] == "Partition assignments:"@
                &&& forall|i: int|
                    0 < i <= c.producers ==> #[trigger] lines[i] == "  Producer "@ + decimal(
                        (i - 1) as nat,
                    ) + " -> "@ + bracketed(
                        partitions_of((i - 1) as nat, c.partitions, c.redundancy),
                    )
            }
        }),
{
}

/// The producers' results are told in four lines, and in a fifth the times that their sends took,
/// where any was counted.
pub proof fn law_producer_results_are_told(
    messages: u64,
    elapsed_secs: Binary64,
    elapsed: Seq<char>,
    h: SampleHistogram,
    l: LatencyReading,
)
    ensures
        ({
            let lines = producer_result_lines(messages, elapsed_secs, elapsed, h, l);
            &&& recorded(h).len() == 0 ==> lines.len() == 4
            &&& recorded(h).len() > 0 ==> lines.len() == 5
            &&& lines[0] == ""@
            &&& lines[1] == "=== Producer Results ==="@
            &&& lines[2] == "Produced: "@ + decimal(messages as nat) + " msgs in "@ + elapsed
            &&& lines[3] == "Producer throughput: "@ + fixed0(
                quotient(of_integer(messages as nat), elapsed_secs),
            ) + " msg/s"@
            &&& recorded(h).len() > 0 ==> lines[4] == "Send latency"@ + " (us): p50="@ + decimal(
                l.p50 as nat,
            ) + " p99="@ + decimal(l.p99 as nat) + " p999="@ + decimal(l.p999 as nat) + " avg="@
                + fixed0(l.mean)
        }),
{
}

/// The consumers' results are told in four lines, and in eight more the latencies, where any was
/// counted.
pub proof fn law_consumer_results_are_told(
    messages: u64,
    elapsed_secs: Binary64,
    elapsed: Seq<char>,
    h: SampleHistogram,
    l: LatencyReading,
    samples: u64,
    max: u64,
)
    ensures
        ({
            let lines = consumer_result_lines(
                messages,
                elapsed_secs,
                elapsed,
                h,
                l,
                samples,
                max,
            );
            &&& recorded(h).len() == 0 ==> lines.len() == 4
            &&& lines[0] == ""@
            &&& lines[1] == "=== Consumer Results ==="@
            &&& lines[2] == "Consumed: "@ + decimal(messages as nat) + " msgs in "@ + elapsed
            &&& lines[3] == "Consumer throughput: "@ + fixed0(
                quotient(of_integer(messages as nat), elapsed_secs),
            ) + " msg/s"@
            &&& recorded(h).len() > 0 ==> {
                &&& lines.len() == 12
                &&& lines[4] == ""@
                &&& lines[5] == "Latency (us) - "@ + decimal(samples as nat) + " samples:"@
                &&& lines[6] == "  p50:   "@ + decimal(l.p50 as nat)
                &&& lines[7] == "  p90:   "@ + decimal(l.p90 as nat)
                &&& lines[8] == "  p99:   "@ + decimal(l.p99 as nat)
                &&& lines[9] == "  p999:  "@ + decimal(l.p999 as nat)
                &&& lines[10] == "  max:   "@ + decimal(max as nat)
                &&& lines[11] == "  avg:   "@ + fixed0(l.mean)
            }
        }),
{
}

/// The figures of a run are those of its producers and its consumers, each in its place; without
/// consumers theirs are zero, and without a latency their latencies.
pub proof fn law_figures_are_put_together(
    elapsed_secs: Binary64,
    produced: u64,
    producer_secs: Binary64,
    producers: LatencyReading,
    consumers: Option<ConsumerTotals>,
)
    ensures
        ({
            let m = metrics_of(elapsed_secs, produced, producer_secs, producers, consumers);
            &&& m.elapsed_secs == elapsed_secs
            &&& m.producer_throughput == quotient(of_integer(produced as nat), producer_secs)
            &&& m.producer_p50_us == producers.p50
            &&& m.producer_p99_us == producers.p99
            &&& consumers matches Some(c) ==> m.consumer_throughput == quotient(
                of_integer(c.messages as nat),
                c.elapsed_secs,
            )
            &&& consumers is None ==> m.consumer_throughput == (Binary64 { bits: 0 })
            &&& consumers matches Some(c) ==> c.latency matches Some(l) ==> m.consumer_p50_us
                == l.p50 && m.consumer_p99_us == l.p99 && m.consumer_p999_us == l.p999
            &&& consumers is None || consumers->Some_0.latency is None ==> m.consumer_p50_us == 0
                && m.consumer_p99_us == 0 && m.consumer_p999_us == 0
        }),
{
}

/// A histogram gives a reading if and only if it has counted anything.
pub proof fn law_reading_needs_a_count(h: SampleHistogram, l: LatencyReading)
    ensures
        recorded(h).len() > 0 <==> reading(h, l) is Some,
        reading(h, l) is Some ==> reading(h, l)->Some_0 == l,
{
}

/// The producers are listed one after the other.
pub proof fn law_producers_are_listed(a: Seq<ActorSummary>, b: Seq<ActorSummary>)
    ensures
        all_producer_lines(a + b) == all_producer_lines(a) + all_producer_lines(b),
        all_producer_lines(Seq::empty()) == Seq::<Seq<char>>::empty(),
        a.len() == 0 ==> per_producer_lines(a) == Seq::<Seq<char>>::empty(),
        a.len() > 0 ==> per_producer_lines(a) == seq![""@, "--- Per-Producer Stats ---"@]
            + all_producer_lines(a),
    decreases b.len(),
{
    assert(all_producer_lines(Seq::empty()) =~= Seq::<Seq<char>>::empty());
    if b.len() == 0 {
        assert(a + b =~= a);
        assert(all_producer_lines(b) =~= Seq::<Seq<char>>::empty());
        assert(all_producer_lines(a) =~= all_producer_lines(a) + Seq::empty());
    } else {
        assert((a + b).drop_last() =~= a + b.drop_last());
        assert((a + b).last() == b.last());
        law_producers_are_listed(a, b.drop_last());
        assert(all_producer_lines(a + b) =~= all_producer_lines(a) + all_producer_lines(b));
    }
}

/// A producer has one line with its messages, its rate and its partitions, and a second with its
/// latencies where it has any.
pub proof fn law_producer_is_told(a: ActorSummary)
    ensures
        ({
            let lines = all_producer_lines(seq![a]);
            let row = "  Producer "@ + decimal(a.id as nat) + ": "@ + decimal(a.messages as nat)
                + " msgs, "@ + fixed0(
                quotient(of_integer(a.messages as nat), a.elapsed_secs),
            ) + " msg/s, partitions "@ + bracketed(a.partitions@);
            &&& a.latency is None ==> lines == seq![row]
            &&& a.latency matches Some(q) ==> lines == seq![
                row,
                "    latency (us): p50="@ + decimal(q.p50 as nat) + " p99="@ + decimal(q.p99 as nat)
                    + " p999="@ + decimal(q.p999 as nat),
            ]
        }),
{
    let one = seq![a];
    assert(one.drop_last() =~= Seq::<ActorSummary>::empty());
    assert(all_producer_lines(one.drop_last()) =~= Seq::<Seq<char>>::empty());
    assert(one.last() == a);
    assert(all_producer_lines(one) =~= producer_lines(a));
}

/// The consumers are listed one after the other, and those that are idle are counted.
pub proof fn law_consumers_are_listed(a: Seq<ActorSummary>, b: Seq<ActorSummary>)
    ensures
        all_consumer_lines(a + b) == all_consumer_lines(a) + all_consumer_lines(b),
        all_consumer_lines(Seq::empty()) == Seq::<Seq<char>>::empty(),
        idle_count(a + b) == idle_count(a) + idle_count(b),
        idle_count(Seq::empty()) == 0,
    decreases b.len(),
{
    assert(all_consumer_lines(Seq::empty()) =~= Seq::<Seq<char>>::empty());
    if b.len() == 0 {
        assert(a + b =~= a);
        assert(all_consumer_lines(b) =~= Seq::<Seq<char>>::empty());
        assert(all_consumer_lines(a) =~= all_consumer_lines(a) + Seq::empty());
    } else {
        assert((a + b).drop_last() =~= a + b.drop_last());
        assert((a + b).last() == b.last());
        law_consumers_are_listed(a, b.drop_last());
        assert(all_consumer_lines(a + b) =~= all_consumer_lines(a) + all_consumer_lines(b));
    }
}

/// A consumer that got messages has one line with them, its rate and its partitions, and a second
/// with its latencies where it has any; one that got none has one line that says so.
pub proof fn law_consumer_is_told(a: ActorSummary)
    ensures
        ({
            let lines = all_consumer_lines(seq![a]);
            let zero = Binary64 { bits: 0 };
            let timed = !a.elapsed_secs.nan() && a.elapsed_secs.exact() > 0;
            let speed = if timed {
                quotient(of_integer(a.messages as nat), a.elapsed_secs)
            } else {
                zero
            };
            let row = "  Consumer "@ + decimal(a.id as nat) + ": "@ + decimal(a.messages as nat)
                + " msgs, "@ + fixed0(speed) + " msg/s, partitions "@ + bracketed(a.partitions@);
            &&& a.messages == 0 ==> idle_count(seq![a]) == 1 && lines == seq![
                "  Consumer "@ + decimal(a.id as nat) + ": IDLE - 0 msgs, partitions seen: "@
                    + bracketed(a.partitions@),
            ]
            &&& a.messages > 0 ==> idle_count(seq![a]) == 0
            &&& a.messages > 0 && a.latency is None ==> lines == seq![row]
            &&& a.latency matches Some(q) ==> a.messages > 0 ==> lines == seq![
                row,
                "    latency (us): p50="@ + decimal(q.p50 as nat) + " p99="@ + decimal(q.p99 as nat)
                    + " p999="@ + decimal(q.p999 as nat),
            ]
        }),
{
    let one = seq![a];
    assert(one.drop_last() =~= Seq::<ActorSummary>::empty());
    assert(all_consumer_lines(one.drop_last()) =~= Seq::<Seq<char>>::empty());
    assert(idle_count(one.drop_last()) == 0);
    assert(one.last() == a);
    assert(all_consumer_lines(one) =~= consumer_lines(a));
    assert(units(0) == 0);
}

/// There is a warning of idle consumers, with their number and that of all, if and only if there
/// is a consumer that got no message.
pub proof fn law_idle_consumers_are_warned_of(list: Seq<ActorSummary>)
    ensures
        ({
            let lines = per_consumer_lines(list);
            let head = seq![""@, "--- Per-Consumer Stats ---"@] + all_consumer_lines(list);
            let idle = exists|i: int|
                0 <= i < list.len() && (#[trigger] list[i]).messages == 0;
            &&& list.len() == 0 ==> lines == Seq::<Seq<char>>::empty()
            &&& list.len() > 0 && !idle ==> lines == head
            &&& idle ==> lines == head + seq![
                ""@,
                "WARNING: "@ + decimal(idle_count(list)) + " of "@ + decimal(list.len())
                    + " consumers were idle!"@,
                "This suggests consumer group partition assignment is not distributing load."@,
            ]
        }),
{
    lemma_idle_count_is_positive(list);
    let lines = per_consumer_lines(list);
    let head = seq![""@, "--- Per-Consumer Stats ---"@] + all_consumer_lines(list);
    if list.len() > 0 && idle_count(list) == 0 {
        assert(lines =~= head);
    }
}

/// Someone is counted as idle where someone is.
proof fn lemma_idle_count_is_positive(list: Seq<ActorSummary>)
    ensures
        idle_count(list) <= list.len(),
        idle_count(list) > 0 <==> exists|i: int|
            0 <= i < list.len() && (#[trigger] list[i]).messages == 0,
    decreases list.len(),
{
    if list.len() > 0 {
        let before = list.drop_last();
        lemma_idle_count_is_positive(before);
        assert(list[list.len() - 1] == list.last());
        if idle_count(before) > 0 {
            let i = choose|i: int| 0 <= i < before.len() && (#[trigger] before[i]).messages == 0;
            assert(list[i] == before[i]);
        }
        if exists|i: int| 0 <= i < list.len() && (#[trigger] list[i]).messages == 0 {
            let i = choose|i: int| 0 <= i < list.len() && (#[trigger] list[i]).messages == 0;
            if i < before.len() {
                assert(before[i] == list[i]);
            }
        }
    }
}

/// Columns side by side, with a space between them.
pub open spec fn columns(list: Seq<Seq<char>>) -> Seq<char>
    decreases list.len(),
{
    if list.len() == 0 {
        Seq::empty()
    } else if list.len() == 1 {
        list[0]
    } else {
        columns(list.drop_last()) + seq![' '] + list.last()
    }
}

/// A further column stands behind the others.
proof fn lemma_next_column(list: Seq<Seq<char>>, column: Seq<char>)
    ensures
        list.len() > 0 ==> columns(list.push(column)) == columns(list) + seq![' '] + column,
        list.len() == 0 ==> columns(list.push(column)) == column,
{
    assert(list.push(column).drop_last() =~= list);
}

/// The table of partitions has seven columns.
pub proof fn law_partition_columns(p: PartitionSnapshot)
    ensures
        partition_header() == columns(
            seq![
                right_aligned("Part"@, 4),
                right_aligned("Produced"@, 10),
                right_aligned("Consumed"@, 10),
                right_aligned("Prod/s"@, 10),
                right_aligned("Cons/s"@, 10),
                right_aligned("Lag"@, 8),
                right_aligned("MaxLag"@, 8),
            ],
        ),
        partition_row(p) == columns(
            seq![
                right_aligned(decimal(p.partition_id as nat), 4),
                right_aligned(decimal(p.produced_count as nat), 10),
                right_aligned(decimal(p.consumed_count as nat), 10),
                right_aligned(fixed0(p.produced_per_sec), 10),
                right_aligned(fixed0(p.consumed_per_sec), 10),
                right_aligned(decimal(p.current_lag as nat), 8),
                right_aligned(decimal(p.max_lag as nat), 8),
            ],
        ),
{
    reveal_strlit(" ");
    assert(" "@ =~= seq![' ']);
    lemma_seven_columns(
        right_aligned("Part"@, 4),
        right_aligned("Produced"@, 10),
        right_aligned("Consumed"@, 10),
        right_aligned("Prod/s"@, 10),
        right_aligned("Cons/s"@, 10),
        right_aligned("Lag"@, 8),
        right_aligned("MaxLag"@, 8),
    );
    lemma_seven_columns(
        right_aligned(decimal(p.partition_id as nat), 4),
        right_aligned(decimal(p.produced_count as nat), 10),
        right_aligned(decimal(p.consumed_count as nat), 10),
        right_aligned(fixed0(p.produced_per_sec), 10),
        right_aligned(fixed0(p.consumed_per_sec), 10),
        right_aligned(decimal(p.current_lag as nat), 8),
        right_aligned(decimal(p.max_lag as nat), 8),
    );
}

/// Six columns, written out.
proof fn lemma_six_columns(
    a: Seq<char>,
    b: Seq<char>,
    c: Seq<char>,
    d: Seq<char>,
    e: Seq<char>,
    f: Seq<char>,
)
    ensures
        columns(seq![a, b, c, d, e, f]) == a + seq![' '] + b + seq![' '] + c + seq![' '] + d
            + seq![' '] + e + seq![' '] + f,
{
    let none = Seq::<Seq<char>>::empty();
    lemma_next_column(none, a);
    lemma_next_column(none.push(a), b);
    lemma_next_column(none.push(a).push(b), c);
    lemma_next_column(none.push(a).push(b).push(c), d);
    lemma_next_column(none.push(a).push(b).push(c).push(d), e);
    lemma_next_column(none.push(a).push(b).push(c).push(d).push(e), f);
    assert(seq![a, b, c, d, e, f] =~= none.push(a).push(b).push(c).push(d).push(e).push(f));
}

/// Seven columns, written out.
proof fn lemma_seven_columns(
    a: Seq<char>,
    b: Seq<char>,
    c: Seq<char>,
    d: Seq<char>,
    e: Seq<char>,
    f: Seq<char>,
    g: Seq<char>,
)
    ensures
        columns(seq![a, b, c, d, e, f, g]) == a + seq![' '] + b + seq![' '] + c + seq![' '] + d
            + seq![' '] + e + seq![' '] + f + seq![' '] + g,
{
    lemma_six_columns(a, b, c, d, e, f);
    lemma_next_column(seq![a, b, c, d, e, f], g);
    assert(seq![a, b, c, d, e, f, g] =~= seq![a, b, c, d, e, f].push(g));
}

/// Eight columns, written out.
proof fn lemma_eight_columns(
    a: Seq<char>,
    b: Seq<char>,
    c: Seq<char>,
    d: Seq<char>,
    e: Seq<char>,
    f: Seq<char>,
    g: Seq<char>,
    h: Seq<char>,
)
    ensures
        columns(seq![a, b, c, d, e, f, g, h]) == a + seq![' '] + b + seq![' '] + c + seq![' '] + d
            + seq![' '] + e + seq![' '] + f + seq![' '] + g + seq![' '] + h,
{
    lemma_seven_columns(a, b, c, d, e, f, g);
    lemma_next_column(seq![a, b, c, d, e, f, g], h);
    assert(seq![a, b, c, d, e, f, g, h] =~= seq![a, b, c, d, e, f, g].push(h));
}

/// The table of consumers has eight columns.
pub proof fn law_poll_columns(c: ConsumerPollSnapshot)
    ensures
        poll_header() == columns(
            seq![
                right_aligned("ID"@, 4),
                right_aligned("Polls/s"@, 10),
                right_aligned("Empty/s"@, 10),
                right_aligned("Empty%"@, 8),
                right_aligned("Dur p50"@, 10),
                right_aligned("Dur p99"@, 10),
                right_aligned("Dur p999"@, 10),
                right_aligned("Msgs/poll"@, 10),
            ],
        ),
        poll_row(c) == columns(
            seq![
                right_aligned(decimal(c.consumer_id as nat), 4),
                right_aligned(fixed0(c.polls_per_sec), 10),
                right_aligned(fixed0(c.empty_polls_per_sec), 10),
                right_aligned(fixed1(product(c.empty_poll_ratio, of_integer(100))), 7) + "%"@,
                right_aligned(decimal(c.poll_duration_p50_us as nat), 9) + "us"@,
                right_aligned(decimal(c.poll_duration_p99_us as nat), 9) + "us"@,
                right_aligned(decimal(c.poll_duration_p999_us as nat), 9) + "us"@,
                right_aligned(fixed1(c.messages_per_poll_avg), 10),
            ],
        ),
{
    reveal_strlit(" ");
    assert(" "@ =~= seq![' ']);
    lemma_eight_columns(
        right_aligned("ID"@, 4),
        right_aligned("Polls/s"@, 10),
        right_aligned("Empty/s"@, 10),
        right_aligned("Empty%"@, 8),
        right_aligned("Dur p50"@, 10),
        right_aligned("Dur p99"@, 10),
        right_aligned("Dur p999"@, 10),
        right_aligned("Msgs/poll"@, 10),
    );
    lemma_eight_columns(
        right_aligned(decimal(c.consumer_id as nat), 4),
        right_aligned(fixed0(c.polls_per_sec), 10),
        right_aligned(fixed0(c.empty_polls_per_sec), 10),
        right_aligned(fixed1(product(c.empty_poll_ratio, of_integer(100))), 7) + "%"@,
        right_aligned(decimal(c.poll_duration_p50_us as nat), 9) + "us"@,
        right_aligned(decimal(c.poll_duration_p99_us as nat), 9) + "us"@,
        right_aligned(decimal(c.poll_duration_p999_us as nat), 9) + "us"@,
        right_aligned(fixed1(c.messages_per_poll_avg), 10),
    );
}

/// The table of producers has six columns.
pub proof fn law_send_columns(p: ProducerSendSnapshot)
    ensures
        send_header() == columns(
            seq![
                right_aligned("ID"@, 4),
                right_aligned("Sends/s"@, 10),
                right_aligned("Dur p50"@, 10),
                right_aligned("Dur p99"@, 10),
                right_aligned("Dur p999"@, 10),
                right_aligned("Msgs/send"@, 12),
            ],
        ),
        send_row(p) == columns(
            seq![
                right_aligned(decimal(p.producer_id as nat), 4),
                right_aligned(fixed0(p.sends_per_sec), 10),
                right_aligned(decimal(p.send_duration_p50_us as nat), 9) + "us"@,
                right_aligned(decimal(p.send_duration_p99_us as nat), 9) + "us"@,
                right_aligned(decimal(p.send_duration_p999_us as nat), 9) + "us"@,
                right_aligned(fixed1(p.messages_per_send_avg), 12),
            ],
        ),
{
    reveal_strlit(" ");
    assert(" "@ =~= seq![' ']);
    lemma_six_columns(
        right_aligned("ID"@, 4),
        right_aligned("Sends/s"@, 10),
        right_aligned("Dur p50"@, 10),
        right_aligned("Dur p99"@, 10),
        right_aligned("Dur p999"@, 10),
        right_aligned("Msgs/send"@, 12),
    );
    lemma_six_columns(
        right_aligned(decimal(p.producer_id as nat), 4),
        right_aligned(fixed0(p.sends_per_sec), 10),
        right_aligned(decimal(p.send_duration_p50_us as nat), 9) + "us"@,
        right_aligned(decimal(p.send_duration_p99_us as nat), 9) + "us"@,
        right_aligned(decimal(p.send_duration_p999_us as nat), 9) + "us"@,
        right_aligned(fixed1(p.messages_per_send_avg), 12),
    );
}

/// An observation is told with how much it matters, what it is about and what it says.
pub proof fn law_observation_is_told(o: Observation)
    ensures
        ({
            let rest = "] "@ + o.category + ": "@ + o.message;
            observation_text(o) == "["@ + (match o.severity {
                Severity::Info => "INFO"@,
                Severity::Warning => "WARN"@,
                Severity::Critical => "CRIT"@,
            }) + rest
        }),
{
    let rest = "] "@ + o.category + ": "@ + o.message;
    let word = match o.severity {
        Severity::Info => "INFO"@,
        Severity::Warning => "WARN"@,
        Severity::Critical => "CRIT"@,
    };
    assert(observation_text(o) =~= "["@ + word + rest);
}

/// A table has a title, a head, one row for each of its entries and a blank line; there is none
/// without entries.
pub proof fn law_tables_are_complete(
    partitions: Seq<PartitionSnapshot>,
    polls: Seq<ConsumerPollSnapshot>,
    sends: Seq<ProducerSendSnapshot>,
    list: Seq<Observation>,
)
    ensures
        partitions.len() == 0 ==> partition_table(partitions).len() == 0,
        partitions.len() > 0 ==> {
            let t = partition_table(partitions);
            &&& t.len() == partitions.len() + 3
            &&& t[0] == "--- Per-Partition Metrics ---"@
            &&& t[1] == partition_header()
            &&& forall|i: int|
                0 <= i < partitions.len() ==> t[i + 2] == partition_row(#[trigger] partitions[i])
            &&& t.last() == ""@
        },
        polls.len() == 0 ==> poll_table(polls).len() == 0,
        polls.len() > 0 ==> {
            let t = poll_table(polls);
            &&& t.len() == polls.len() + 3
            &&& t[0] == "--- Consumer Poll Behavior ---"@
            &&& t[1] == poll_header()
            &&& forall|i: int|
                0 <= i < polls.len() ==> t[i + 2] == poll_row(#[trigger] polls[i])
            &&& t.last() == ""@
        },
        sends.len() == 0 ==> send_table(sends).len() == 0,
        sends.len() > 0 ==> {
            let t = send_table(sends);
            &&& t.len() == sends.len() + 3
            &&& t[0] == "--- Producer Send Behavior ---"@
            &&& t[1] == send_header()
            &&& forall|i: int|
                0 <= i < sends.len() ==> t[i + 2] == send_row(#[trigger] sends[i])
            &&& t.last() == ""@
        },
        list.len() == 0 ==> observation_list(list).len() == 0,
        list.len() > 0 ==> {
            let t = observation_list(list);
            &&& t.len() == list.len() + 2
            &&& t[0] == "--- Diagnostic Observations ---"@
            &&& forall|i: int|
                0 <= i < list.len() ==> t[i + 1] == observation_text(#[trigger] list[i])
            &&& t.last() == ""@
        },
{
}

/// A report begins with its title and ends with the summary; between them stand the three tables
/// and the observations, in this order.
pub proof fn law_report_is_told(r: DiagnosticReport)
    ensures
        ({
            let lines = report_lines(r);
            let (partitions, polls, sends, list) = (
                partition_table(r.partitions@),
                poll_table(r.consumer_polls@),
                send_table(r.producer_sends@),
                observation_list(said(r.observations@)),
            );
            let a = 3 + partitions.len();
            let b = a + polls.len();
            let c = b + sends.len();
            let d = c + list.len();
            &&& lines.len() == d + 2
            &&& lines[0] == ""@
            &&& lines[1] == "=== Diagnostic Report ==="@
            &&& lines[2] == ""@
            &&& lines.subrange(3, a as int) == partitions
            &&& lines.subrange(a as int, b as int) == polls
            &&& lines.subrange(b as int, c as int) == sends
            &&& lines.subrange(c as int, d as int) == list
            &&& lines[d as int] == "--- Bottleneck Summary ---"@
            &&& lines[(d + 1) as int] == r.bottleneck_summary@
        }),
{
    let lines = report_lines(r);
    let (partitions, polls, sends, list) = (
        partition_table(r.partitions@),
        poll_table(r.consumer_polls@),
        send_table(r.producer_sends@),
        observation_list(said(r.observations@)),
    );
    let a = 3 + partitions.len();
    let b = a + polls.len();
    let c = b + sends.len();
    let d = c + list.len();
    assert(lines.subrange(3, a as int) =~= partitions);
    assert(lines.subrange(a as int, b as int) =~= polls);
    assert(lines.subrange(b as int, c as int) =~= sends);
    assert(lines.subrange(c as int, d as int) =~= list);
}

} // verus!
