//! What a run says before it begins: its configuration and its topology.
use vstd::prelude::*;
use vstd::string::*;
use crate::lines::{add_count, add_line, add_text, labelled, labelled_in, text_lines};
use crate::report::BenchmarkConfig;
use crate::text::{bracketed, decimal, decimal_text, push_bracketed, push_decimal};
use crate::topology::{compute_producer_partitions, partitions_of};

verus! {

/// How a run is paced and what it shows, beside its configuration.
#[derive(Clone, Copy, Debug, PartialEq, Eq, Structural)]
pub struct RunOptions {
    /// Target total throughput in messages per second; zero is no limit.
    pub throughput: u64,
    pub verbose: bool,
    pub diagnostics: bool,
}

/// The word for a flag.
pub open spec fn flag_word(flag: bool) -> Seq<char> {
    if flag {
        "true"@
    } else {
        "false"@
    }
}

fn flag_text(flag: bool) -> (r: &'static str)
    ensures
        r@ == flag_word(flag),
{
    if flag {
        "true"
    } else {
        "false"
    }
}

/// The number of consumers that run.
pub open spec fn running_consumers(c: BenchmarkConfig) -> usize {
    if c.producer_only {
        0
    } else {
        c.consumers
    }
}

fn count_running_consumers(c: BenchmarkConfig) -> (r: usize)
    ensures
        r == running_consumers(c),
{
    if c.producer_only {
        0
    } else {
        c.consumers
    }
}

/// The target throughput in words.
pub open spec fn target_words(throughput: u64) -> Seq<char> {
    if throughput == 0 {
        "unlimited"@
    } else {
        decimal(throughput as nat)
    }
}

fn target_text(throughput: u64) -> (r: String)
    ensures
        r@ == target_words(throughput),
{
    if throughput == 0 {
        "unlimited".to_string()
    } else {
        decimal_text(throughput as u128)
    }
}

/// The configuration of a run as lines of text.
pub open spec fn configuration_lines(c: BenchmarkConfig, o: RunOptions) -> Seq<Seq<char>> {
    seq![
        "=== Minimal Rust Benchmark ==="@,
        "Messages: "@ + decimal(c.messages as nat),
        "Message size: "@ + decimal(c.message_size as nat) + " bytes"@,
        "Producers (P): "@ + decimal(c.producers as nat),
        "Partitions (N): "@ + decimal(c.partitions as nat),
        "Redundancy (R): "@ + decimal(c.redundancy as nat),
        "Consumers: "@ + decimal(running_consumers(c) as nat),
        "Target throughput: "@ + target_words(o.throughput) + " msg/s"@,
        "Poll interval: "@ + decimal(c.poll_interval_us as nat) + "us"@,
        "Verbose: "@ + flag_word(o.verbose),
        "Balanced partitioning: "@ + flag_word(c.balanced),
        "Diagnostics: "@ + flag_word(o.diagnostics),
        ""@,
    ]
}

/// The configuration of a run as lines of text.
pub fn describe_configuration(c: BenchmarkConfig, o: RunOptions) -> (r: Vec<String>)
    ensures
        text_lines(r@) == configuration_lines(c, o),
{
    let mut lines: Vec<String> = Vec::new();
    add_text(&mut lines, "=== Minimal Rust Benchmark ===");
    add_count(&mut lines, "Messages: ", c.messages as u128);
    let size: String = decimal_text(c.message_size as u128);
    add_line(&mut lines, labelled_in("Message size: ", size.as_str(), " bytes"));
    add_count(&mut lines, "Producers (P): ", c.producers as u128);
    add_count(&mut lines, "Partitions (N): ", c.partitions as u128);
    add_count(&mut lines, "Redundancy (R): ", c.redundancy as u128);
    add_count(&mut lines, "Consumers: ", count_running_consumers(c) as u128);
    let target: String = target_text(o.throughput);
    add_line(&mut lines, labelled_in("Target throughput: ", target.as_str(), " msg/s"));
    let interval: String = decimal_text(c.poll_interval_us as u128);
    add_line(&mut lines, labelled_in("Poll interval: ", interval.as_str(), "us"));
    add_line(&mut lines, labelled("Verbose: ", flag_text(o.verbose)));
    add_line(&mut lines, labelled("Balanced partitioning: ", flag_text(c.balanced)));
    add_line(&mut lines, labelled("Diagnostics: ", flag_text(o.diagnostics)));
    add_text(&mut lines, "");
    assert(text_lines(lines@) =~= configuration_lines(c, o));
    lines
}

/// One producer and its partitions.
pub open spec fn assignment_text(producer_id: nat, partitions: Seq<u32>) -> Seq<char> {
    "  Producer "@ + decimal(producer_id) + " -> "@ + bracketed(partitions)
}

fn assignment_line(producer_id: usize, partitions: &Vec<u32>) -> (r: String)
    ensures
        r@ == assignment_text(producer_id as nat, partitions@),
{
    let mut s: String = "  Producer ".to_string();
    push_decimal(&mut s, producer_id as u128);
    s.append(" -> ");
    push_bracketed(&mut s, partitions);
    s
}

/// What is said where the server routes messages.
pub open spec fn routed_text(c: BenchmarkConfig) -> Seq<char> {
    "Partition assignments: balanced (server routes to all "@ + decimal(c.partitions as nat)
        + " partitions)"@
}

/// The assignments of the first `n` producers.
pub open spec fn assignment_rows(n: nat, c: BenchmarkConfig) -> Seq<Seq<char>> {
    Seq::new(
        n,
        |i: int| assignment_text(i as nat, partitions_of(i as nat, c.partitions, c.redundancy)),
    )
}

/// Who writes to which partitions, as lines of text.
pub open spec fn topology_lines(c: BenchmarkConfig) -> Seq<Seq<char>> {
    if c.balanced {
        seq![routed_text(c), ""@]
    } else {
        seq!["Partition assignments:"@] + assignment_rows(c.producers as nat, c) + seq![""@]
    }
}

/// Who writes to which partitions, as lines of text.
pub fn describe_topology(c: BenchmarkConfig) -> (r: Vec<String>)
    requires
        !c.balanced && c.producers > 0 ==> c.partitions > 0 && (c.producers - 1) * c.redundancy
            <= usize::MAX,
    ensures
        text_lines(r@) == topology_lines(c),
{
    let mut lines: Vec<String> = Vec::new();
    if c.balanced {
        let count: String = decimal_text(c.partitions as u128);
        add_line(
            &mut lines,
            labelled_in(
                "Partition assignments: balanced (server routes to all ",
                count.as_str(),
                " partitions)",
            ),
        );
        add_text(&mut lines, "");
        assert(text_lines(lines@) =~= topology_lines(c));
        return lines;
    }
    add_text(&mut lines, "Partition assignments:");
    let ghost head = text_lines(lines@);
    let mut p: usize = 0;
    assert(head =~= head + assignment_rows(0, c));
    while p < c.producers
        invariant
            p <= c.producers,
            c.producers > 0 ==> c.partitions > 0 && (c.producers - 1) * c.redundancy <= usize::MAX,
            text_lines(lines@) == head + assignment_rows(p as nat, c),
        decreases c.producers - p,
    {
        assert(p * c.redundancy <= (c.producers - 1) * c.redundancy) by (nonlinear_arith)
            requires
                p <= c.producers - 1,
                c.redundancy >= 0,
        ;
        let partitions: Vec<u32> = compute_producer_partitions(
            p,
            c.producers,
            c.partitions,
            c.redundancy,
        );
        add_line(&mut lines, assignment_line(p, &partitions));
        p = p + 1;
        assert(text_lines(lines@) =~= head + assignment_rows(p as nat, c));
    }
    add_text(&mut lines, "");
    assert(text_lines(lines@) =~= topology_lines(c));
    lines
}

} // verus!
