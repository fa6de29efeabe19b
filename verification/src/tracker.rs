//! Per-partition tracking of what was produced and consumed.
use std::collections::HashMap;
use vstd::prelude::*;
use vstd::arithmetic::power2::{lemma_pow2_pos, pow2};
use crate::binary64::{
    law_integers_keep_their_order, law_quotient_of_integers_is_close, law_small_integers_are_exact,
    law_special_values, less, of_integer, quotient, Binary64,
};
use crate::rounding::units;

verus! {

broadcast use vstd::std_specs::hash::group_hash_axioms;

/// `a + b`, wrapping around at 2^64.
pub open spec fn wrapped_sum(a: u64, b: u64) -> u64 {
    ((a + b) % 0x1_0000_0000_0000_0000) as u64
}

/// The larger of two counters.
pub open spec fn larger(a: u64, b: u64) -> u64 {
    if a < b {
        b
    } else {
        a
    }
}

/// `a - b`, or zero where that is negative.
pub open spec fn shortfall(a: u64, b: u64) -> u64 {
    if a > b {
        (a - b) as u64
    } else {
        0
    }
}

/// A count per second; zero where no time has passed.
pub open spec fn rate(count: u64, elapsed_secs: Binary64) -> Binary64 {
    if less(Binary64 { bits: 0 }, elapsed_secs) {
        quotient(of_integer(count as nat), elapsed_secs)
    } else {
        Binary64 { bits: 0 }
    }
}

/// `sum` divided evenly over `n`; zero where `n` is zero.
pub open spec fn average(sum: u64, n: u64) -> Binary64 {
    if n > 0 {
        quotient(of_integer(sum as nat), of_integer(n as nat))
    } else {
        Binary64 { bits: 0 }
    }
}

/// A count per second; zero where no time has passed.
pub fn per_second(count: u64, elapsed_secs: Binary64) -> (r: Binary64)
    ensures
        r == rate(count, elapsed_secs),
{
    let zero: Binary64 = Binary64 { bits: 0 };
    if elapsed_secs.gt(zero) {
        Binary64::from_u64(count).over(elapsed_secs)
    } else {
        zero
    }
}

/// `sum` divided evenly over `n`; zero where `n` is zero.
pub fn mean_of(sum: u64, n: u64) -> (r: Binary64)
    ensures
        r == average(sum, n),
{
    if n > 0 {
        Binary64::from_u64(sum).over(Binary64::from_u64(n))
    } else {
        Binary64 { bits: 0 }
    }
}

/// Per-partition tracking for lag and throughput diagnostics.
#[derive(Clone, Copy, Debug, PartialEq, Eq, Structural)]
pub struct PartitionTracker {
    pub partition_id: u32,
    pub produced_seq: u64,
    pub consumed_seq: u64,
    pub produced_count: u64,
    pub consumed_count: u64,
    pub produced_bytes: u64,
    pub consumed_bytes: u64,
    pub max_lag: u64,
    pub lag_sum: u64,
    pub lag_samples: u64,
}

/// What a tracker says of its partition at the end of a run.
#[derive(Clone, Copy, Debug, PartialEq, Eq, Structural)]
pub struct PartitionSnapshot {
    pub partition_id: u32,
    pub produced_count: u64,
    pub consumed_count: u64,
    pub produced_bytes: u64,
    pub consumed_bytes: u64,
    pub produced_per_sec: Binary64,
    pub consumed_per_sec: Binary64,
    pub current_lag: u64,
    pub max_lag: u64,
    pub avg_lag: Binary64,
}

/// The tracker of a partition on which nothing has happened.
pub open spec fn fresh(partition_id: u32) -> PartitionTracker {
    PartitionTracker {
        partition_id,
        produced_seq: 0,
        consumed_seq: 0,
        produced_count: 0,
        consumed_count: 0,
        produced_bytes: 0,
        consumed_bytes: 0,
        max_lag: 0,
        lag_sum: 0,
        lag_samples: 0,
    }
}

/// The tracker `t` after a message has been produced.
pub open spec fn after_produce(t: PartitionTracker, seq: u64, bytes: u64) -> PartitionTracker {
    PartitionTracker {
        produced_seq: larger(t.produced_seq, seq),
        produced_count: wrapped_sum(t.produced_count, 1),
        produced_bytes: wrapped_sum(t.produced_bytes, bytes),
        ..t
    }
}

/// How far a consumed message lies behind the latest produced one.
pub open spec fn observed_lag(t: PartitionTracker, seq: u64) -> u64 {
    shortfall(t.produced_seq, seq)
}

/// The tracker `t` after a message has been consumed.
pub open spec fn after_consume(t: PartitionTracker, seq: u64, bytes: u64) -> PartitionTracker {
    PartitionTracker {
        consumed_seq: larger(t.consumed_seq, seq),
        consumed_count: wrapped_sum(t.consumed_count, 1),
        consumed_bytes: wrapped_sum(t.consumed_bytes, bytes),
        max_lag: larger(t.max_lag, observed_lag(t, seq)),
        lag_sum: wrapped_sum(t.lag_sum, observed_lag(t, seq)),
        lag_samples: wrapped_sum(t.lag_samples, 1),
        ..t
    }
}

/// The snapshot of the tracker `t` after `elapsed_secs` seconds.
pub open spec fn snapshot_of(t: PartitionTracker, elapsed_secs: Binary64) -> PartitionSnapshot {
    PartitionSnapshot {
        partition_id: t.partition_id,
        produced_count: t.produced_count,
        consumed_count: t.consumed_count,
        produced_bytes: t.produced_bytes,
        consumed_bytes: t.consumed_bytes,
        produced_per_sec: rate(t.produced_count, elapsed_secs),
        consumed_per_sec: rate(t.consumed_count, elapsed_secs),
        current_lag: shortfall(t.produced_seq, t.consumed_seq),
        max_lag: t.max_lag,
        avg_lag: average(t.lag_sum, t.lag_samples),
    }
}

fn max_of(a: u64, b: u64) -> (r: u64)
    ensures
        r == larger(a, b),
{
    if a < b {
        b
    } else {
        a
    }
}

fn wrapping_sum(a: u64, b: u64) -> (r: u64)
    ensures
        r == wrapped_sum(a, b),
{
    a.wrapping_add(b)
}

impl Default for PartitionTracker {
    /// A tracker of partition zero on which nothing has happened.
    fn default() -> (t: PartitionTracker)
        ensures
            t == fresh(0),
    {
        PartitionTracker {
            partition_id: 0,
            produced_seq: 0,
            consumed_seq: 0,
            produced_count: 0,
            consumed_count: 0,
            produced_bytes: 0,
            consumed_bytes: 0,
            max_lag: 0,
            lag_sum: 0,
            lag_samples: 0,
        }
    }
}

impl PartitionTracker {
    /// A tracker on which nothing has happened.
    pub fn new(partition_id: u32) -> (t: PartitionTracker)
        ensures
            t == fresh(partition_id),
    {
        PartitionTracker { partition_id, ..PartitionTracker::default() }
    }

    /// Takes note of a produced message.
    pub fn record_produce(&mut self, seq: u64, bytes: u64)
        ensures
            *final(self) == after_produce(*old(self), seq, bytes),
    {
        self.produced_seq = max_of(self.produced_seq, seq);
        self.produced_count = wrapping_sum(self.produced_count, 1);
        self.produced_bytes = wrapping_sum(self.produced_bytes, bytes);
    }

    /// Takes note of a consumed message, and of how far behind it was.
    pub fn record_consume(&mut self, seq: u64, bytes: u64)
        ensures
            *final(self) == after_consume(*old(self), seq, bytes),
    {
        self.consumed_seq = max_of(self.consumed_seq, seq);
        self.consumed_count = wrapping_sum(self.consumed_count, 1);
        self.consumed_bytes = wrapping_sum(self.consumed_bytes, bytes);
        let lag: u64 = self.produced_seq.saturating_sub(seq);
        self.max_lag = max_of(self.max_lag, lag);
        self.lag_sum = wrapping_sum(self.lag_sum, lag);
        self.lag_samples = wrapping_sum(self.lag_samples, 1);
    }

    /// How far consumption is behind production.
    pub fn current_lag(&self) -> (lag: u64)
        ensures
            lag == shortfall(self.produced_seq, self.consumed_seq),
    {
        self.produced_seq.saturating_sub(self.consumed_seq)
    }

    /// The figures of this partition after `elapsed_secs` seconds.
    pub fn snapshot(&self, elapsed_secs: Binary64) -> (s: PartitionSnapshot)
        ensures
            s == snapshot_of(*self, elapsed_secs),
    {
        PartitionSnapshot {
            partition_id: self.partition_id,
            produced_count: self.produced_count,
            consumed_count: self.consumed_count,
            produced_bytes: self.produced_bytes,
            consumed_bytes: self.consumed_bytes,
            produced_per_sec: per_second(self.produced_count, elapsed_secs),
            consumed_per_sec: per_second(self.consumed_count, elapsed_secs),
            current_lag: self.current_lag(),
            max_lag: self.max_lag,
            avg_lag: mean_of(self.lag_sum, self.lag_samples),
        }
    }
}

/// Global partition tracker registry.
pub struct PartitionTrackers {
    trackers: HashMap<u32, PartitionTracker>,
}

impl View for PartitionTrackers {
    type V = Map<u32, PartitionTracker>;

    closed spec fn view(&self) -> Map<u32, PartitionTracker> {
        self.trackers@
    }
}

impl PartitionTrackers {
    /// Partitions are numbered from zero without a gap, and each is tracked under its number.
    pub open spec fn wf(&self) -> bool {
        &&& forall|i: u32, j: u32| #![trigger self@.contains_key(i), self@.contains_key(j)]
            i <= j && self@.contains_key(j) ==> self@.contains_key(i)
        &&& forall|i: u32| #[trigger]
            self@.contains_key(i) ==> i < u32::MAX && self@[i].partition_id == i
    }

    /// A fresh tracker for each of the partitions below `num_partitions`.
    pub fn new(num_partitions: u32) -> (r: PartitionTrackers)
        ensures
            r.wf(),
            forall|i: u32| #[trigger] r@.contains_key(i) <==> i < num_partitions,
            forall|i: u32| i < num_partitions ==> #[trigger] r@[i] == fresh(i),
    {
        let mut trackers: HashMap<u32, PartitionTracker> = HashMap::new();
        let mut i: u32 = 0;
        while i < num_partitions
            invariant
                i <= num_partitions,
                forall|j: u32| #[trigger] trackers@.contains_key(j) <==> j < i,
                forall|j: u32| j < i ==> #[trigger] trackers@[j] == fresh(j),
            decreases num_partitions - i,
        {
            trackers.insert(i, PartitionTracker::new(i));
            i = i + 1;
        }
        PartitionTrackers { trackers }
    }

    /// The tracker of a partition, where there is one.
    pub fn get(&self, partition_id: u32) -> (r: Option<&PartitionTracker>)
        ensures
            r is Some <==> self@.contains_key(partition_id),
            r matches Some(t) ==> *t == self@[partition_id],
    {
        self.trackers.get(&partition_id)
    }

    /// Takes note of a message produced to a partition, where that partition is tracked.
    pub fn record_produce(&mut self, partition_id: u32, seq: u64, bytes: u64)
        requires
            old(self).wf(),
        ensures
            final(self).wf(),
            final(self)@ == if old(self)@.contains_key(partition_id) {
                old(self)@.insert(
                    partition_id,
                    after_produce(old(self)@[partition_id], seq, bytes),
                )
            } else {
                old(self)@
            },
    {
        let found: Option<PartitionTracker> = match self.trackers.get(&partition_id) {
            Some(t) => Some(*t),
            None => None,
        };
        if let Some(t) = found {
            let mut t: PartitionTracker = t;
            t.record_produce(seq, bytes);
            self.trackers.insert(partition_id, t);
            assert(forall|i: u32| #[trigger]
                self@.contains_key(i) ==> old(self)@.contains_key(i));
            assert(forall|i: u32| #[trigger]
                old(self)@.contains_key(i) ==> self@.contains_key(i));
        }
    }

    /// Takes note of a message consumed from a partition, where that partition is tracked.
    pub fn record_consume(&mut self, partition_id: u32, seq: u64, bytes: u64)
        requires
            old(self).wf(),
        ensures
            final(self).wf(),
            final(self)@ == if old(self)@.contains_key(partition_id) {
                old(self)@.insert(
                    partition_id,
                    after_consume(old(self)@[partition_id], seq, bytes),
                )
            } else {
                old(self)@
            },
    {
        let found: Option<PartitionTracker> = match self.trackers.get(&partition_id) {
            Some(t) => Some(*t),
            None => None,
        };
        if let Some(t) = found {
            let mut t: PartitionTracker = t;
            t.record_consume(seq, bytes);
            self.trackers.insert(partition_id, t);
            assert(forall|i: u32| #[trigger]
                self@.contains_key(i) ==> old(self)@.contains_key(i));
            assert(forall|i: u32| #[trigger]
                old(self)@.contains_key(i) ==> self@.contains_key(i));
        }
    }

    /// The figures of all partitions, in the order of their numbers.
    pub fn snapshots(&self, elapsed_secs: Binary64) -> (r: Vec<PartitionSnapshot>)
        requires
            self.wf(),
        ensures
            forall|i: u32| #[trigger] self@.contains_key(i) <==> i < r@.len(),
            forall|i: int|
                0 <= i < r@.len() ==> #[trigger] r@[i] == snapshot_of(
                    self@[i as u32],
                    elapsed_secs,
                ),
    {
        let mut r: Vec<PartitionSnapshot> = Vec::new();
        let mut i: u32 = 0;
        while self.trackers.contains_key(&i)
            invariant
                self.wf(),
                r@.len() == i,
                forall|j: u32| j < i ==> #[trigger] self@.contains_key(j),
                forall|j: int|
                    0 <= j < r@.len() ==> #[trigger] r@[j] == snapshot_of(
                        self@[j as u32],
                        elapsed_secs,
                    ),
            decreases u32::MAX - i,
        {
            assert(self@.contains_key(i));
            if let Some(t) = self.trackers.get(&i) {
                r.push(t.snapshot(elapsed_secs));
            }
            i = i + 1;
        }
        assert(!self@.contains_key(i));
        r
    }
}

/// One message that was produced to a partition or consumed from it.
pub enum Event {
    Produced { seq: u64, bytes: u64 },
    Consumed { seq: u64, bytes: u64 },
}

/// The tracker of a partition after the events of `history`, in their order.
pub open spec fn replay(partition_id: u32, history: Seq<Event>) -> PartitionTracker
    decreases history.len(),
{
    if history.len() == 0 {
        fresh(partition_id)
    } else {
        let before = replay(partition_id, history.drop_last());
        match history.last() {
            Event::Produced { seq, bytes } => after_produce(before, seq, bytes),
            Event::Consumed { seq, bytes } => after_consume(before, seq, bytes),
        }
    }
}

/// Whether the event produced a message.
pub open spec fn is_production(e: Event) -> bool {
    e is Produced
}

/// The number of events of `history` that produced a message.
pub open spec fn productions(history: Seq<Event>) -> nat {
    history.filter(|e: Event| is_production(e)).len()
}

/// The number of events of `history` that consumed a message.
pub open spec fn consumptions(history: Seq<Event>) -> nat {
    history.filter(|e: Event| !is_production(e)).len()
}

/// Wrapping sums can be taken in any order.
proof fn lemma_wrapped_sum_order(a: u64, b: u64, c: u64)
    ensures
        wrapped_sum(wrapped_sum(a, b), c) == wrapped_sum(wrapped_sum(a, c), b),
{
    let m = 0x1_0000_0000_0000_0000int;
    vstd::arithmetic::div_mod::lemma_add_mod_noop_right(c as int, a + b, m);
    vstd::arithmetic::div_mod::lemma_add_mod_noop_right(b as int, a + c, m);
    assert(wrapped_sum(wrapped_sum(a, b), c) == (c + (a + b)) % m);
    assert(wrapped_sum(wrapped_sum(a, c), b) == (b + (a + c)) % m);
}

/// The order in which two producers report does not matter.
pub proof fn law_produce_commutes(t: PartitionTracker, s1: u64, b1: u64, s2: u64, b2: u64)
    ensures
        after_produce(after_produce(t, s1, b1), s2, b2) == after_produce(
            after_produce(t, s2, b2),
            s1,
            b1,
        ),
{
    lemma_wrapped_sum_order(t.produced_bytes, b1, b2);
    let (x, y) = (
        after_produce(after_produce(t, s1, b1), s2, b2),
        after_produce(after_produce(t, s2, b2), s1, b1),
    );
    assert(x.produced_count == y.produced_count);
    assert(x.produced_seq == y.produced_seq);
}

/// The order in which two consumers report does not matter.
pub proof fn law_consume_commutes(t: PartitionTracker, s1: u64, b1: u64, s2: u64, b2: u64)
    ensures
        after_consume(after_consume(t, s1, b1), s2, b2) == after_consume(
            after_consume(t, s2, b2),
            s1,
            b1,
        ),
{
    let (l1, l2) = (observed_lag(t, s1), observed_lag(t, s2));
    lemma_wrapped_sum_order(t.consumed_bytes, b1, b2);
    lemma_wrapped_sum_order(t.lag_sum, l1, l2);
    let (x, y) = (
        after_consume(after_consume(t, s1, b1), s2, b2),
        after_consume(after_consume(t, s2, b2), s1, b1),
    );
    assert(observed_lag(after_consume(t, s1, b1), s2) == l2);
    assert(observed_lag(after_consume(t, s2, b2), s1) == l1);
    assert(x.consumed_seq == y.consumed_seq);
    assert(x.max_lag == y.max_lag);
    assert(x.consumed_count == y.consumed_count && x.lag_samples == y.lag_samples);
}

/// Producing leaves the consumer's figures alone and never lowers the highest sequence number;
/// consuming leaves the producer's figures alone, and the maximum lag is never below a lag that
/// was observed.
pub proof fn law_records_are_monotone(t: PartitionTracker, seq: u64, bytes: u64)
    ensures
        ({
            let p = after_produce(t, seq, bytes);
            &&& p.produced_seq >= t.produced_seq
            &&& p.produced_seq >= seq
            &&& p.partition_id == t.partition_id
            &&& p.consumed_seq == t.consumed_seq
            &&& p.consumed_count == t.consumed_count
            &&& p.consumed_bytes == t.consumed_bytes
            &&& p.max_lag == t.max_lag
            &&& p.lag_sum == t.lag_sum
            &&& p.lag_samples == t.lag_samples
        }),
        ({
            let c = after_consume(t, seq, bytes);
            &&& c.consumed_seq >= t.consumed_seq
            &&& c.consumed_seq >= seq
            &&& c.max_lag >= t.max_lag
            &&& c.max_lag >= observed_lag(t, seq)
            &&& c.partition_id == t.partition_id
            &&& c.produced_seq == t.produced_seq
            &&& c.produced_count == t.produced_count
            &&& c.produced_bytes == t.produced_bytes
        }),
{
}

/// A partition has no lag once its latest message has been consumed.
pub proof fn law_no_lag_when_caught_up(t: PartitionTracker, seq: u64, bytes: u64)
    requires
        seq >= t.produced_seq,
    ensures
        snapshot_of(after_consume(t, seq, bytes), Binary64 { bits: 0 }).current_lag == 0,
        observed_lag(t, seq) == 0,
{
}

/// A tracker counts the messages of its history, wrapping around at 2^64, and there is one lag
/// sample for each consumed message.
pub proof fn law_counts_follow_history(partition_id: u32, history: Seq<Event>)
    ensures
        replay(partition_id, history).partition_id == partition_id,
        replay(partition_id, history).produced_count == productions(history)
            % 0x1_0000_0000_0000_0000,
        replay(partition_id, history).consumed_count == consumptions(history)
            % 0x1_0000_0000_0000_0000,
        replay(partition_id, history).lag_samples == consumptions(history)
            % 0x1_0000_0000_0000_0000,
        productions(history) + consumptions(history) == history.len(),
    decreases history.len(),
{
    if history.len() > 0 {
        let before = history.drop_last();
        law_counts_follow_history(partition_id, before);
        lemma_last_event_counts(history);
        lemma_wrapped_step(productions(before));
        lemma_wrapped_step(consumptions(before));
    } else {
        lemma_no_events();
        assert(history =~= Seq::<Event>::empty());
    }
}

/// Without events nothing is counted.
proof fn lemma_no_events()
    ensures
        productions(Seq::<Event>::empty()) == 0,
        consumptions(Seq::<Event>::empty()) == 0,
{
    reveal(Seq::filter);
}

/// The last event counts on its side.
proof fn lemma_last_event_counts(history: Seq<Event>)
    requires
        history.len() > 0,
    ensures
        productions(history) == productions(history.drop_last()) + if is_production(
            history.last(),
        ) {
            1nat
        } else {
            0
        },
        consumptions(history) == consumptions(history.drop_last()) + if is_production(
            history.last(),
        ) {
            0nat
        } else {
            1
        },
{
    reveal(Seq::filter);
}

/// Counting one further wraps around at 2^64.
proof fn lemma_wrapped_step(n: nat)
    ensures
        wrapped_sum((n % 0x1_0000_0000_0000_0000) as u64, 1) == (n + 1) % 0x1_0000_0000_0000_0000,
{
    vstd::arithmetic::div_mod::lemma_add_mod_noop_right(
        1,
        n as int,
        0x1_0000_0000_0000_0000,
    );
}

/// The highest sequence numbers are those of the history: no message of it has a higher one,
/// and each is that of some message, or zero.
pub proof fn law_highest_follow_history(partition_id: u32, history: Seq<Event>)
    ensures
        forall|i: int|
            0 <= i < history.len() ==> (#[trigger] history[i] matches Event::Produced { seq, .. }
                ==> seq <= replay(partition_id, history).produced_seq),
        forall|i: int|
            0 <= i < history.len() ==> (#[trigger] history[i] matches Event::Consumed { seq, .. }
                ==> seq <= replay(partition_id, history).consumed_seq),
        replay(partition_id, history).produced_seq == 0 || exists|i: int|
            0 <= i < history.len() && (#[trigger] history[i] matches Event::Produced { seq, .. }
                && seq == replay(partition_id, history).produced_seq),
        replay(partition_id, history).consumed_seq == 0 || exists|i: int|
            0 <= i < history.len() && (#[trigger] history[i] matches Event::Consumed { seq, .. }
                && seq == replay(partition_id, history).consumed_seq),
    decreases history.len(),
{
    if history.len() > 0 {
        let before = history.drop_last();
        law_highest_follow_history(partition_id, before);
        let t = replay(partition_id, before);
        let now = replay(partition_id, history);
        assert forall|i: int| 0 <= i < history.len() implies (
        #[trigger] history[i] matches Event::Produced { seq, .. } ==> seq <= now.produced_seq) by {
            if i < before.len() {
                assert(before[i] == history[i]);
            }
        }
        assert forall|i: int| 0 <= i < history.len() implies (
        #[trigger] history[i] matches Event::Consumed { seq, .. } ==> seq <= now.consumed_seq) by {
            if i < before.len() {
                assert(before[i] == history[i]);
            }
        }
        let last = history.len() - 1;
        assert(history[last] == history.last());
        if now.produced_seq != 0 && now.produced_seq == t.produced_seq {
            let i = choose|i: int|
                0 <= i < before.len() && (#[trigger] before[i] matches Event::Produced { seq, .. }
                    && seq == t.produced_seq);
            assert(history[i] == before[i]);
        }
        if now.consumed_seq != 0 && now.consumed_seq == t.consumed_seq {
            let i = choose|i: int|
                0 <= i < before.len() && (#[trigger] before[i] matches Event::Consumed { seq, .. }
                    && seq == t.consumed_seq);
            assert(history[i] == before[i]);
        }
    }
}

/// The bytes that the events of `history` produced, if `production`, or consumed.
pub open spec fn bytes_of(history: Seq<Event>, production: bool) -> nat
    decreases history.len(),
{
    if history.len() == 0 {
        0
    } else {
        let before = bytes_of(history.drop_last(), production);
        match history.last() {
            Event::Produced { bytes, .. } => if production {
                before + bytes as nat
            } else {
                before
            },
            Event::Consumed { bytes, .. } => if production {
                before
            } else {
                before + bytes as nat
            },
        }
    }
}

/// A tracker adds up the bytes of its history, wrapping around at 2^64.
pub proof fn law_bytes_follow_history(partition_id: u32, history: Seq<Event>)
    ensures
        replay(partition_id, history).produced_bytes == bytes_of(history, true)
            % 0x1_0000_0000_0000_0000,
        replay(partition_id, history).consumed_bytes == bytes_of(history, false)
            % 0x1_0000_0000_0000_0000,
    decreases history.len(),
{
    let m = 0x1_0000_0000_0000_0000int;
    if history.len() > 0 {
        let before = history.drop_last();
        law_bytes_follow_history(partition_id, before);
        match history.last() {
            Event::Produced { bytes, .. } => {
                vstd::arithmetic::div_mod::lemma_add_mod_noop_right(
                    bytes as int,
                    bytes_of(before, true) as int,
                    m,
                );
            },
            Event::Consumed { bytes, .. } => {
                vstd::arithmetic::div_mod::lemma_add_mod_noop_right(
                    bytes as int,
                    bytes_of(before, false) as int,
                    m,
                );
            },
        }
    }
}

/// The lags of all consumed messages of `history` together.
pub open spec fn total_observed_lag(partition_id: u32, history: Seq<Event>) -> nat
    decreases history.len(),
{
    if history.len() == 0 {
        0
    } else {
        let before = history.drop_last();
        total_observed_lag(partition_id, before) + match history.last() {
            Event::Produced { .. } => 0,
            Event::Consumed { seq, .. } => observed_lag(
                replay(partition_id, before),
                seq,
            ) as nat,
        }
    }
}

/// A tracker adds up the lags of its history, wrapping around at 2^64. Together they are at most
/// the maximum lag for each consumed message.
pub proof fn law_lags_follow_history(partition_id: u32, history: Seq<Event>)
    ensures
        replay(partition_id, history).lag_sum == total_observed_lag(partition_id, history)
            % 0x1_0000_0000_0000_0000,
        total_observed_lag(partition_id, history) <= replay(partition_id, history).max_lag
            * consumptions(history),
    decreases history.len(),
{
    if history.len() > 0 {
        let before = history.drop_last();
        law_lags_follow_history(partition_id, before);
        lemma_last_event_counts(history);
        let t = replay(partition_id, before);
        let now = replay(partition_id, history);
        let n = consumptions(before);
        assert(t.max_lag * n <= now.max_lag * n) by (nonlinear_arith)
            requires
                t.max_lag <= now.max_lag,
        ;
        if let Event::Consumed { seq, .. } = history.last() {
            let lag = observed_lag(t, seq);
            vstd::arithmetic::div_mod::lemma_add_mod_noop_right(
                lag as int,
                total_observed_lag(partition_id, before) as int,
                0x1_0000_0000_0000_0000,
            );
            assert(consumptions(history) == n + 1);
            assert(now.max_lag * (n + 1) == now.max_lag * n + now.max_lag) by (nonlinear_arith);
        }
    } else {
        assert(replay(partition_id, history).max_lag * consumptions(history) >= 0)
            by (nonlinear_arith);
    }
}

/// The mean lag is never above the maximum: the sum of the lags is at most the maximum for each
/// sample, as long as the sum and the number of samples fit 64 bits.
pub proof fn law_mean_lag_is_at_most_the_maximum(partition_id: u32, history: Seq<Event>)
    requires
        total_observed_lag(partition_id, history) < 0x1_0000_0000_0000_0000,
        consumptions(history) < 0x1_0000_0000_0000_0000,
    ensures
        replay(partition_id, history).lag_sum <= replay(partition_id, history).max_lag * replay(
            partition_id,
            history,
        ).lag_samples,
{
    law_lags_follow_history(partition_id, history);
    law_counts_follow_history(partition_id, history);
}

/// What one produced message does to the figures of its partition, and what one consumed message
/// does: the lag that a consumed message is noted with is what lies between it and the highest
/// produced one.
pub proof fn law_one_message_is_noted(t: PartitionTracker, seq: u64, bytes: u64)
    ensures
        ({
            let p = after_produce(t, seq, bytes);
            &&& p.produced_seq >= seq && p.produced_seq >= t.produced_seq
            &&& p.produced_seq == seq || p.produced_seq == t.produced_seq
            &&& p.produced_count == (t.produced_count + 1) % 0x1_0000_0000_0000_0000
            &&& p.produced_bytes == (t.produced_bytes + bytes) % 0x1_0000_0000_0000_0000
        }),
        ({
            let c = after_consume(t, seq, bytes);
            let lag: int = if t.produced_seq > seq {
                t.produced_seq - seq
            } else {
                0
            };
            &&& c.consumed_seq >= seq && c.consumed_seq >= t.consumed_seq
            &&& c.consumed_seq == seq || c.consumed_seq == t.consumed_seq
            &&& c.consumed_count == (t.consumed_count + 1) % 0x1_0000_0000_0000_0000
            &&& c.consumed_bytes == (t.consumed_bytes + bytes) % 0x1_0000_0000_0000_0000
            &&& c.max_lag >= lag && c.max_lag >= t.max_lag
            &&& c.max_lag == lag || c.max_lag == t.max_lag
            &&& c.lag_sum == (t.lag_sum + lag) % 0x1_0000_0000_0000_0000
            &&& c.lag_samples == (t.lag_samples + 1) % 0x1_0000_0000_0000_0000
        }),
{
}

/// A new tracker has nothing to tell.
pub proof fn law_new_tracker_is_empty(partition_id: u32)
    ensures
        ({
            let t = fresh(partition_id);
            &&& t.partition_id == partition_id
            &&& t.produced_seq == 0 && t.consumed_seq == 0
            &&& t.produced_count == 0 && t.consumed_count == 0
            &&& t.produced_bytes == 0 && t.consumed_bytes == 0
            &&& t.max_lag == 0 && t.lag_sum == 0 && t.lag_samples == 0
        }),
{
}

/// A snapshot gives the figures of its tracker, whatever they are: counts, bytes and the maximum
/// lag as they stand, the lag between the two highest sequence numbers, counts divided by the
/// time, and the sum of the lags divided by their number.
pub proof fn law_snapshot_gives_the_figures(t: PartitionTracker, elapsed_secs: Binary64)
    ensures
        ({
            let s = snapshot_of(t, elapsed_secs);
            let zero = Binary64 { bits: 0 };
            let timed = !elapsed_secs.nan() && elapsed_secs.exact() > 0;
            &&& s.partition_id == t.partition_id
            &&& s.produced_count == t.produced_count
            &&& s.consumed_count == t.consumed_count
            &&& s.produced_bytes == t.produced_bytes
            &&& s.consumed_bytes == t.consumed_bytes
            &&& s.max_lag == t.max_lag
            &&& t.produced_seq >= t.consumed_seq ==> s.current_lag + t.consumed_seq
                == t.produced_seq
            &&& t.produced_seq < t.consumed_seq ==> s.current_lag == 0
            &&& timed ==> s.produced_per_sec == quotient(
                of_integer(t.produced_count as nat),
                elapsed_secs,
            )
            &&& timed ==> s.consumed_per_sec == quotient(
                of_integer(t.consumed_count as nat),
                elapsed_secs,
            )
            &&& !timed ==> s.produced_per_sec == zero && s.consumed_per_sec == zero
            &&& t.lag_samples > 0 ==> s.avg_lag == quotient(
                of_integer(t.lag_sum as nat),
                of_integer(t.lag_samples as nat),
            )
            &&& t.lag_samples == 0 ==> s.avg_lag == zero
        }),
{
    assert(units(0) == 0);
}

/// Whether event `j` produced a message that was ahead of the one that event `i` consumed later,
/// by `lag` sequence numbers.
pub open spec fn trails_by(history: Seq<Event>, i: int, j: int, lag: int) -> bool {
    &&& 0 <= j < i < history.len()
    &&& history[i] matches Event::Consumed { seq: consumed, .. }
    &&& history[j] matches Event::Produced { seq: produced, .. }
    &&& lag == produced - consumed
}

/// The maximum lag in the snapshot of a partition is the largest by which any message that was
/// consumed from it trailed one that had been produced before, however the partition stands at the
/// end; zero where none ever trailed.
pub proof fn law_maximum_lag_is_the_largest_observed(
    partition_id: u32,
    history: Seq<Event>,
    elapsed_secs: Binary64,
)
    ensures
        ({
            let max = snapshot_of(replay(partition_id, history), elapsed_secs).max_lag;
            &&& forall|i: int, j: int, lag: int| #[trigger]
                trails_by(history, i, j, lag) ==> lag <= max
            &&& max == 0 || exists|i: int, j: int| #[trigger]
                trails_by(history, i, j, max as int)
        }),
    decreases history.len(),
{
    let max = snapshot_of(replay(partition_id, history), elapsed_secs).max_lag;
    if history.len() > 0 {
        let before = history.drop_last();
        let t = replay(partition_id, before);
        let last = history.len() - 1;
        law_maximum_lag_is_the_largest_observed(partition_id, before, elapsed_secs);
        law_highest_follow_history(partition_id, before);
        let old_max = snapshot_of(t, elapsed_secs).max_lag;
        assert(old_max == t.max_lag);
        assert forall|i: int, j: int, lag: int| #[trigger]
            trails_by(history, i, j, lag) implies lag <= max by {
            if i < last {
                assert(before[i] == history[i] && before[j] == history[j]);
                assert(trails_by(before, i, j, lag));
            } else {
                assert(before[j] == history[j]);
                assert(history[i] == history.last());
            }
        }
        if max == old_max && max != 0 {
            let (i, j) = choose|i: int, j: int| #[trigger]
                trails_by(before, i, j, max as int);
            assert(before[i] == history[i] && before[j] == history[j]);
            assert(trails_by(history, i, j, max as int));
        } else if max != 0 {
            let seq = history.last()->Consumed_seq;
            assert(max == t.produced_seq - seq);
            let j = choose|j: int|
                0 <= j < before.len() && (#[trigger] before[j] matches Event::Produced {
                    seq: produced,
                    ..
                } && produced == t.produced_seq);
            assert(before[j] == history[j]);
            assert(trails_by(history, last, j, max as int));
        }
    }
}

/// The current lag in the snapshot of a partition is what lies between the highest sequence number
/// that was produced to it and the highest that was consumed from it.
pub proof fn law_current_lag_is_what_is_left(
    partition_id: u32,
    history: Seq<Event>,
    elapsed_secs: Binary64,
    produced: u64,
    consumed: u64,
)
    requires
        exists|i: int|
            0 <= i < history.len() && (#[trigger] history[i] matches Event::Produced { seq, .. }
                && seq == produced),
        exists|i: int|
            0 <= i < history.len() && (#[trigger] history[i] matches Event::Consumed { seq, .. }
                && seq == consumed),
        forall|i: int|
            0 <= i < history.len() ==> (#[trigger] history[i] matches Event::Produced { seq, .. }
                ==> seq <= produced),
        forall|i: int|
            0 <= i < history.len() ==> (#[trigger] history[i] matches Event::Consumed { seq, .. }
                ==> seq <= consumed),
    ensures
        ({
            let lag = snapshot_of(replay(partition_id, history), elapsed_secs).current_lag;
            lag == if produced > consumed {
                produced - consumed
            } else {
                0
            }
        }),
{
    law_highest_follow_history(partition_id, history);
}

/// An average is the sum divided by the number, to one part in 2^51; nothing has the average zero.
pub proof fn law_average_is_close(sum: u64, n: u64)
    ensures
        n == 0 ==> average(sum, n) == (Binary64 { bits: 0 }),
        n > 0 && sum > 0 ==> {
            let (found, wanted) = (average(sum, n).exact() * n, sum * pow2(1074));
            &&& !average(sum, n).nan()
            &&& found * 0x8_0000_0000_0000 <= wanted * 0x8_0000_0000_0001
            &&& found * 0x8_0000_0000_0000 >= wanted * 0x7_ffff_ffff_ffff
        },
{
    if n > 0 && sum > 0 {
        law_quotient_of_integers_is_close(sum as nat, n as nat);
    }
}

/// In a whole number of seconds a rate is the count divided by them, to one part in 2^51.
pub proof fn law_rate_is_close(count: u64, secs: u64)
    requires
        count > 0,
        secs > 0,
    ensures
        ({
            let r = rate(count, of_integer(secs as nat));
            let (found, wanted) = (r.exact() * secs, count * pow2(1074));
            &&& !r.nan()
            &&& found * 0x8_0000_0000_0000 <= wanted * 0x8_0000_0000_0001
            &&& found * 0x8_0000_0000_0000 >= wanted * 0x7_ffff_ffff_ffff
        }),
{
    let s = of_integer(secs as nat);
    law_quotient_of_integers_is_close(count as nat, secs as nat);
    law_integers_keep_their_order(1, secs as nat);
    law_small_integers_are_exact(1);
    lemma_pow2_pos(1074);
    assert(units(0) == 0);
    if s.nan() {
        law_special_values(of_integer(count as nat), s);
    }
    assert(less(Binary64 { bits: 0 }, s));
}

} // verus!
