//! The diagnostic report as lines of text.
use vstd::prelude::*;
use vstd::string::*;
use crate::binary64::{of_integer, product, Binary64};
use crate::lines::{
    add_line, add_text, push_decimal_right, push_fixed0_right, push_fixed1_right, text_lines,
};
use crate::report::{said, DiagnosticObservation, DiagnosticReport, Observation, Severity};
use crate::stats::{ConsumerPollSnapshot, ProducerSendSnapshot};
use crate::text::{decimal, fixed0, fixed1, push_right, right_aligned};
use crate::tracker::PartitionSnapshot;

verus! {

/// The head of the table of partitions.
pub open spec fn partition_header() -> Seq<char> {
    right_aligned("Part"@, 4) + " "@ + right_aligned("Produced"@, 10) + " "@
        + right_aligned("Consumed"@, 10) + " "@ + right_aligned("Prod/s"@, 10) + " "@
        + right_aligned("Cons/s"@, 10) + " "@ + right_aligned("Lag"@, 8) + " "@
        + right_aligned("MaxLag"@, 8)
}

fn partition_header_line() -> (r: String)
    ensures
        r@ == partition_header(),
{
    let mut s: String = String::new();
    push_right(&mut s, "Part", 4);
    assert(s@ =~= right_aligned("Part"@, 4));
    s.append(" ");
    push_right(&mut s, "Produced", 10);
    s.append(" ");
    push_right(&mut s, "Consumed", 10);
    s.append(" ");
    push_right(&mut s, "Prod/s", 10);
    s.append(" ");
    push_right(&mut s, "Cons/s", 10);
    s.append(" ");
    push_right(&mut s, "Lag", 8);
    s.append(" ");
    push_right(&mut s, "MaxLag", 8);
    s
}

/// One row of the table of partitions.
pub open spec fn partition_row(p: PartitionSnapshot) -> Seq<char> {
    right_aligned(decimal(p.partition_id as nat), 4) + " "@
        + right_aligned(decimal(p.produced_count as nat), 10) + " "@
        + right_aligned(decimal(p.consumed_count as nat), 10) + " "@
        + right_aligned(fixed0(p.produced_per_sec), 10) + " "@
        + right_aligned(fixed0(p.consumed_per_sec), 10) + " "@
        + right_aligned(decimal(p.current_lag as nat), 8) + " "@
        + right_aligned(decimal(p.max_lag as nat), 8)
}

fn partition_row_line(p: PartitionSnapshot) -> (r: String)
    ensures
        r@ == partition_row(p),
{
    let mut s: String = String::new();
    push_decimal_right(&mut s, p.partition_id as u128, 4);
    assert(s@ =~= right_aligned(decimal(p.partition_id as nat), 4));
    s.append(" ");
    push_decimal_right(&mut s, p.produced_count as u128, 10);
    s.append(" ");
    push_decimal_right(&mut s, p.consumed_count as u128, 10);
    s.append(" ");
    push_fixed0_right(&mut s, p.produced_per_sec, 10);
    s.append(" ");
    push_fixed0_right(&mut s, p.consumed_per_sec, 10);
    s.append(" ");
    push_decimal_right(&mut s, p.current_lag as u128, 8);
    s.append(" ");
    push_decimal_right(&mut s, p.max_lag as u128, 8);
    s
}

/// The head of the table of consumers.
pub open spec fn poll_header() -> Seq<char> {
    right_aligned("ID"@, 4) + " "@ + right_aligned("Polls/s"@, 10) + " "@
        + right_aligned("Empty/s"@, 10) + " "@ + right_aligned("Empty%"@, 8) + " "@
        + right_aligned("Dur p50"@, 10) + " "@ + right_aligned("Dur p99"@, 10) + " "@
        + right_aligned("Dur p999"@, 10) + " "@ + right_aligned("Msgs/poll"@, 10)
}

fn poll_header_line() -> (r: String)
    ensures
        r@ == poll_header(),
{
    let mut s: String = String::new();
    push_right(&mut s, "ID", 4);
    assert(s@ =~= right_aligned("ID"@, 4));
    s.append(" ");
    push_right(&mut s, "Polls/s", 10);
    s.append(" ");
    push_right(&mut s, "Empty/s", 10);
    s.append(" ");
    push_right(&mut s, "Empty%", 8);
    s.append(" ");
    push_right(&mut s, "Dur p50", 10);
    s.append(" ");
    push_right(&mut s, "Dur p99", 10);
    s.append(" ");
    push_right(&mut s, "Dur p999", 10);
    s.append(" ");
    push_right(&mut s, "Msgs/poll", 10);
    s
}

/// One row of the table of consumers.
pub open spec fn poll_row(c: ConsumerPollSnapshot) -> Seq<char> {
    right_aligned(decimal(c.consumer_id as nat), 4) + " "@
        + right_aligned(fixed0(c.polls_per_sec), 10) + " "@
        + right_aligned(fixed0(c.empty_polls_per_sec), 10) + " "@
        + right_aligned(fixed1(product(c.empty_poll_ratio, of_integer(100))), 7) + "%"@ + " "@
        + right_aligned(decimal(c.poll_duration_p50_us as nat), 9) + "us"@ + " "@
        + right_aligned(decimal(c.poll_duration_p99_us as nat), 9) + "us"@ + " "@
        + right_aligned(decimal(c.poll_duration_p999_us as nat), 9) + "us"@ + " "@
        + right_aligned(fixed1(c.messages_per_poll_avg), 10)
}

fn poll_row_line(c: ConsumerPollSnapshot) -> (r: String)
    ensures
        r@ == poll_row(c),
{
    let mut s: String = String::new();
    push_decimal_right(&mut s, c.consumer_id as u128, 4);
    assert(s@ =~= right_aligned(decimal(c.consumer_id as nat), 4));
    s.append(" ");
    push_fixed0_right(&mut s, c.polls_per_sec, 10);
    s.append(" ");
    push_fixed0_right(&mut s, c.empty_polls_per_sec, 10);
    s.append(" ");
    push_fixed1_right(&mut s, c.empty_poll_ratio.times(Binary64::from_u64(100)), 7);
    s.append("%");
    s.append(" ");
    push_decimal_right(&mut s, c.poll_duration_p50_us as u128, 9);
    s.append("us");
    s.append(" ");
    push_decimal_right(&mut s, c.poll_duration_p99_us as u128, 9);
    s.append("us");
    s.append(" ");
    push_decimal_right(&mut s, c.poll_duration_p999_us as u128, 9);
    s.append("us");
    s.append(" ");
    push_fixed1_right(&mut s, c.messages_per_poll_avg, 10);
    s
}

/// The head of the table of producers.
pub open spec fn send_header() -> Seq<char> {
    right_aligned("ID"@, 4) + " "@ + right_aligned("Sends/s"@, 10) + " "@
        + right_aligned("Dur p50"@, 10) + " "@ + right_aligned("Dur p99"@, 10) + " "@
        + right_aligned("Dur p999"@, 10) + " "@ + right_aligned("Msgs/send"@, 12)
}

fn send_header_line() -> (r: String)
    ensures
        r@ == send_header(),
{
    let mut s: String = String::new();
    push_right(&mut s, "ID", 4);
    assert(s@ =~= right_aligned("ID"@, 4));
    s.append(" ");
    push_right(&mut s, "Sends/s", 10);
    s.append(" ");
    push_right(&mut s, "Dur p50", 10);
    s.append(" ");
    push_right(&mut s, "Dur p99", 10);
    s.append(" ");
    push_right(&mut s, "Dur p999", 10);
    s.append(" ");
    push_right(&mut s, "Msgs/send", 12);
    s
}

/// One row of the table of producers.
pub open spec fn send_row(p: ProducerSendSnapshot) -> Seq<char> {
    right_aligned(decimal(p.producer_id as nat), 4) + " "@
        + right_aligned(fixed0(p.sends_per_sec), 10) + " "@
        + right_aligned(decimal(p.send_duration_p50_us as nat), 9) + "us"@ + " "@
        + right_aligned(decimal(p.send_duration_p99_us as nat), 9) + "us"@ + " "@
        + right_aligned(decimal(p.send_duration_p999_us as nat), 9) + "us"@ + " "@
        + right_aligned(fixed1(p.messages_per_send_avg), 12)
}

fn send_row_line(p: ProducerSendSnapshot) -> (r: String)
    ensures
        r@ == send_row(p),
{
    let mut s: String = String::new();
    push_decimal_right(&mut s, p.producer_id as u128, 4);
    assert(s@ =~= right_aligned(decimal(p.producer_id as nat), 4));
    s.append(" ");
    push_fixed0_right(&mut s, p.sends_per_sec, 10);
    s.append(" ");
    push_decimal_right(&mut s, p.send_duration_p50_us as u128, 9);
    s.append("us");
    s.append(" ");
    push_decimal_right(&mut s, p.send_duration_p99_us as u128, 9);
    s.append("us");
    s.append(" ");
    push_decimal_right(&mut s, p.send_duration_p999_us as u128, 9);
    s.append("us");
    s.append(" ");
    push_fixed1_right(&mut s, p.messages_per_send_avg, 12);
    s
}

/// The word for a severity.
pub open spec fn severity_word(severity: Severity) -> Seq<char> {
    match severity {
        Severity::Info => "INFO"@,
        Severity::Warning => "WARN"@,
        Severity::Critical => "CRIT"@,
    }
}

fn severity_text(severity: Severity) -> (r: &'static str)
    ensures
        r@ == severity_word(severity),
{
    match severity {
        Severity::Info => "INFO",
        Severity::Warning => "WARN",
        Severity::Critical => "CRIT",
    }
}

/// One observation.
pub open spec fn observation_text(o: Observation) -> Seq<char> {
    "["@ + severity_word(o.severity) + "] "@ + o.category + ": "@ + o.message
}

fn observation_text_line(o: &DiagnosticObservation) -> (r: String)
    ensures
        r@ == observation_text(o@),
{
    let mut s: String = "[".to_string();
    s.append(severity_text(o.severity));
    s.append("] ");
    s.append(o.category.as_str());
    s.append(": ");
    s.append(o.message.as_str());
    s
}

/// The rows of the table of partitions.
pub open spec fn partition_rows(list: Seq<PartitionSnapshot>) -> Seq<Seq<char>> {
    Seq::new(list.len(), |i: int| partition_row(list[i]))
}

/// The table of partitions; nothing without partitions.
pub open spec fn partition_table(list: Seq<PartitionSnapshot>) -> Seq<Seq<char>> {
    if list.len() == 0 {
        Seq::empty()
    } else {
        seq!["--- Per-Partition Metrics ---"@, partition_header()] + partition_rows(list) + seq![
            ""@,
        ]
    }
}

fn add_partition_table(lines: &mut Vec<String>, list: &Vec<PartitionSnapshot>)
    ensures
        text_lines(final(lines)@) == text_lines(old(lines)@) + partition_table(list@),
{
    let ghost start = text_lines(lines@);
    if list.len() > 0 {
        add_text(lines, "--- Per-Partition Metrics ---");
        add_line(lines, partition_header_line());
        let ghost head = text_lines(lines@);
        let mut i: usize = 0;
        assert(head =~= head + partition_rows(list@.take(0)));
        while i < list.len()
            invariant
                i <= list@.len(),
                text_lines(lines@) == head + partition_rows(list@.take(i as int)),
            decreases list@.len() - i,
        {
            add_line(lines, partition_row_line(list[i]));
            i = i + 1;
            assert(text_lines(lines@) =~= head + partition_rows(list@.take(i as int)));
        }
        assert(list@.take(list@.len() as int) =~= list@);
        add_text(lines, "");
    }
    assert(text_lines(lines@) =~= start + partition_table(list@));
}

/// The rows of the table of consumers.
pub open spec fn poll_rows(list: Seq<ConsumerPollSnapshot>) -> Seq<Seq<char>> {
    Seq::new(list.len(), |i: int| poll_row(list[i]))
}

/// The table of consumers; nothing without consumers.
pub open spec fn poll_table(list: Seq<ConsumerPollSnapshot>) -> Seq<Seq<char>> {
    if list.len() == 0 {
        Seq::empty()
    } else {
        seq!["--- Consumer Poll Behavior ---"@, poll_header()] + poll_rows(list) + seq![""@]
    }
}

fn add_poll_table(lines: &mut Vec<String>, list: &Vec<ConsumerPollSnapshot>)
    ensures
        text_lines(final(lines)@) == text_lines(old(lines)@) + poll_table(list@),
{
    let ghost start = text_lines(lines@);
    if list.len() > 0 {
        add_text(lines, "--- Consumer Poll Behavior ---");
        add_line(lines, poll_header_line());
        let ghost head = text_lines(lines@);
        let mut i: usize = 0;
        assert(head =~= head + poll_rows(list@.take(0)));
        while i < list.len()
            invariant
                i <= list@.len(),
                text_lines(lines@) == head + poll_rows(list@.take(i as int)),
            decreases list@.len() - i,
        {
            add_line(lines, poll_row_line(list[i]));
            i = i + 1;
            assert(text_lines(lines@) =~= head + poll_rows(list@.take(i as int)));
        }
        assert(list@.take(list@.len() as int) =~= list@);
        add_text(lines, "");
    }
    assert(text_lines(lines@) =~= start + poll_table(list@));
}

/// The rows of the table of producers.
pub open spec fn send_rows(list: Seq<ProducerSendSnapshot>) -> Seq<Seq<char>> {
    Seq::new(list.len(), |i: int| send_row(list[i]))
}

/// The table of producers; nothing without producers.
pub open spec fn send_table(list: Seq<ProducerSendSnapshot>) -> Seq<Seq<char>> {
    if list.len() == 0 {
        Seq::empty()
    } else {
        seq!["--- Producer Send Behavior ---"@, send_header()] + send_rows(list) + seq![""@]
    }
}

fn add_send_table(lines: &mut Vec<String>, list: &Vec<ProducerSendSnapshot>)
    ensures
        text_lines(final(lines)@) == text_lines(old(lines)@) + send_table(list@),
{
    let ghost start = text_lines(lines@);
    if list.len() > 0 {
        add_text(lines, "--- Producer Send Behavior ---");
        add_line(lines, send_header_line());
        let ghost head = text_lines(lines@);
        let mut i: usize = 0;
        assert(head =~= head + send_rows(list@.take(0)));
        while i < list.len()
            invariant
                i <= list@.len(),
                text_lines(lines@) == head + send_rows(list@.take(i as int)),
            decreases list@.len() - i,
        {
            add_line(lines, send_row_line(list[i]));
            i = i + 1;
            assert(text_lines(lines@) =~= head + send_rows(list@.take(i as int)));
        }
        assert(list@.take(list@.len() as int) =~= list@);
        add_text(lines, "");
    }
    assert(text_lines(lines@) =~= start + send_table(list@));
}

/// The lines of the observations.
pub open spec fn observation_rows(list: Seq<Observation>) -> Seq<Seq<char>> {
    Seq::new(list.len(), |i: int| observation_text(list[i]))
}

/// The list of observations; nothing without observations.
pub open spec fn observation_list(list: Seq<Observation>) -> Seq<Seq<char>> {
    if list.len() == 0 {
        Seq::empty()
    } else {
        seq!["--- Diagnostic Observations ---"@] + observation_rows(list) + seq![""@]
    }
}

fn add_observation_list(lines: &mut Vec<String>, list: &Vec<DiagnosticObservation>)
    ensures
        text_lines(final(lines)@) == text_lines(old(lines)@) + observation_list(said(list@)),
{
    let ghost start = text_lines(lines@);
    if list.len() > 0 {
        add_text(lines, "--- Diagnostic Observations ---");
        let ghost head = text_lines(lines@);
        let mut i: usize = 0;
        assert(head =~= head + observation_rows(said(list@.take(0))));
        while i < list.len()
            invariant
                i <= list@.len(),
                text_lines(lines@) == head + observation_rows(said(list@.take(i as int))),
            decreases list@.len() - i,
        {
            add_line(lines, observation_text_line(&list[i]));
            i = i + 1;
            assert(text_lines(lines@) =~= head + observation_rows(said(list@.take(i as int))));
        }
        assert(list@.take(list@.len() as int) =~= list@);
        add_text(lines, "");
    }
    assert(text_lines(lines@) =~= start + observation_list(said(list@)));
}

/// The report as lines of text.
pub open spec fn report_lines(r: DiagnosticReport) -> Seq<Seq<char>> {
    seq![""@, "=== Diagnostic Report ==="@, ""@] + partition_table(r.partitions@) + poll_table(
        r.consumer_polls@,
    ) + send_table(r.producer_sends@) + observation_list(said(r.observations@)) + seq![
        "--- Bottleneck Summary ---"@,
        r.bottleneck_summary@,
    ]
}

impl DiagnosticReport {
    /// The report as lines of text, for the caller to print.
    pub fn print_human_readable(&self) -> (r: Vec<String>)
        ensures
            text_lines(r@) == report_lines(*self),
    {
        let mut lines: Vec<String> = Vec::new();
        add_text(&mut lines, "");
        add_text(&mut lines, "=== Diagnostic Report ===");
        add_text(&mut lines, "");
        assert(text_lines(lines@) =~= seq![""@, "=== Diagnostic Report ==="@, ""@]);
        add_partition_table(&mut lines, &self.partitions);
        add_poll_table(&mut lines, &self.consumer_polls);
        add_send_table(&mut lines, &self.producer_sends);
        add_observation_list(&mut lines, &self.observations);
        add_text(&mut lines, "--- Bottleneck Summary ---");
        add_text(&mut lines, self.bottleneck_summary.as_str());
        assert(text_lines(lines@) =~= report_lines(*self));
        lines
    }
}

} // verus!
