//! The decisions of producers and consumers between their calls to the server.
use vstd::prelude::*;
use vstd::multiset::Multiset;
use vstd::arithmetic::power2::{lemma_pow2_pos, pow2};
use crate::binary64::{
    difference, law_difference_is_close, law_difference_is_positive, law_exact_quotient,
    law_integer_is_nearest, law_quotient_of_integers_is_close, law_small_integers_are_exact,
    law_special_values, less, of_integer, quotient, signed, Binary64,
};
use crate::clock::wall_clock_micros;
use crate::histogram::{
    bucket_floor, count_value, new_histogram, recorded, standard, SampleHistogram,
};
use crate::payload::{
    decoding, encoding, law_decoding_inverts_encoding, law_eight_bytes_add_up, le_value,
    lemma_encoding_len, lemma_le_value_bytes, lemma_pow256_sizes, read_u64, DiagnosticPayload,
};
use crate::rounding::{lemma_units_monotone, units, INFINITE};
use crate::stats::{ConsumerPollStats, ProducerSendStats};
use crate::tracker::{after_consume, after_produce, shortfall, PartitionTracker, PartitionTrackers};

verus! {

/// How long a producer has to wait, in seconds, so that `total_sent` messages are not sent
/// faster than the target throughput; a target of zero is no limit.
pub open spec fn pacing_delay(
    total_sent: u64,
    throughput: u64,
    elapsed_secs: Binary64,
) -> Option<Binary64> {
    let expected = quotient(of_integer(total_sent as nat), of_integer(throughput as nat));
    if throughput > 0 && less(elapsed_secs, expected) {
        Some(difference(expected, elapsed_secs))
    } else {
        None
    }
}

/// How long a producer has to wait before its next message.
pub fn rate_limit_delay(total_sent: u64, throughput: u64, elapsed_secs: Binary64) -> (r: Option<
    Binary64,
>)
    ensures
        r == pacing_delay(total_sent, throughput, elapsed_secs),
{
    if throughput > 0 {
        let expected: Binary64 = Binary64::from_u64(total_sent).over(
            Binary64::from_u64(throughput),
        );
        if elapsed_secs.lt(expected) {
            return Some(expected.minus(elapsed_secs));
        }
    }
    None
}

/// Who decides which partition a message goes to.
#[derive(Clone, Copy, Debug, PartialEq, Eq, Structural)]
pub enum Route {
    /// The server.
    Balanced,
    /// The producer.
    Partition { partition_id: u32 },
}

/// Messages that are ready to be sent in one call.
pub struct Outgoing {
    pub route: Route,
    /// The place of the partition in the producer's list, and of its connection.
    pub slot: usize,
    pub partition_id: u32,
    /// The sequence number of the first message; those of the others follow.
    pub first_sequence: u64,
    /// The messages, of which there is at least one.
    pub payloads: Vec<Vec<u8>>,
}

/// A producer's progress through its messages.
pub struct ProducerSession {
    pub id: usize,
    pub partitions: Vec<u32>,
    /// Whether the server routes messages.
    pub balanced: bool,
    /// The number of places that take turns.
    pub slots: usize,
    pub quota: u64,
    /// The most messages for one send call; zero counts as one.
    pub batch_size: u32,
    /// The number of messages that were accepted.
    pub sent: u64,
    /// The number of send calls that were accepted.
    pub sends: u64,
    /// The next sequence number of each place.
    pub sequences: Vec<u64>,
    /// The number of bytes of a message.
    pub payload_size: usize,
    pub histogram: SampleHistogram,
    pub send_stats: ProducerSendStats,
}

/// The place whose turn it is after `sends` send calls.
pub open spec fn turn(sends: nat, slots: nat) -> nat {
    sends % slots
}

/// The number of messages for the next send call: a full batch, or what is left.
pub open spec fn batch_length(batch_size: u32, left: nat) -> nat {
    let full: nat = if batch_size == 0 {
        1
    } else {
        batch_size as nat
    };
    if left < full {
        left
    } else {
        full
    }
}

/// The larger of a message size and the size of the payload record.
pub open spec fn padded_size(message_size: usize) -> nat {
    if message_size < 24 {
        24
    } else {
        message_size as nat
    }
}

/// The bytes of a message: the record, and zeros up to the message size.
pub open spec fn message_bytes(record: DiagnosticPayload, size: nat) -> Seq<u8> {
    encoding(record) + Seq::new((size - 24) as nat, |i: int| 0u8)
}

/// The number of places that take turns: one for each partition, or a single one where the
/// server routes messages.
pub fn place_count(partitions: &Vec<u32>, balanced: bool) -> (n: usize)
    ensures
        n == if balanced {
            1
        } else {
            partitions@.len()
        },
{
    if balanced {
        1
    } else {
        partitions.len()
    }
}

/// Makes a message: the record, and zeros up to the message size.
fn make_message(record: DiagnosticPayload, size: usize) -> (r: Vec<u8>)
    requires
        size >= 24,
    ensures
        r@ == message_bytes(record, size as nat),
{
    let bytes: [u8; 24] = record.to_bytes();
    proof {
        lemma_encoding_len(record);
    }
    let mut r: Vec<u8> = Vec::with_capacity(size);
    let mut i: usize = 0;
    while i < size
        invariant
            i <= size,
            size >= 24,
            bytes@ == encoding(record),
            bytes@.len() == 24,
            r@ == message_bytes(record, size as nat).take(i as int),
            message_bytes(record, size as nat).len() == size,
        decreases size - i,
    {
        let b: u8 = if i < 24 { bytes[i] } else { 0 };
        r.push(b);
        i = i + 1;
        assert(r@ =~= message_bytes(record, size as nat).take(i as int));
    }
    assert(message_bytes(record, size as nat).take(size as int) =~= message_bytes(
        record,
        size as nat,
    ));
    r
}

impl ProducerSession {
    /// There is a sequence number for each partition, a place to send to as long as there is
    /// something to send, at least one message and one latency for each send call.
    pub open spec fn wf(&self) -> bool {
        &&& self.sequences@.len() == self.partitions@.len()
        &&& self.quota > 0 ==> 0 < self.slots <= self.partitions@.len()
        &&& self.slots == if self.balanced {
            1
        } else {
            self.partitions@.len()
        }
        &&& self.sends <= self.sent <= self.quota
        &&& self.payload_size >= 24
        &&& standard(self.histogram)
        &&& recorded(self.histogram).len() == self.sends
        &&& self.send_stats.wf()
        &&& self.send_stats.send_count <= self.sends
        &&& self.send_stats.send_count <= self.send_stats.total_messages <= self.sent
    }

    /// The place whose turn it is.
    pub open spec fn place(&self) -> int {
        turn(self.sends as nat, self.slots as nat) as int
    }

    /// The number of messages for the next send call.
    pub open spec fn next_length(&self) -> nat {
        batch_length(self.batch_size, (self.quota - self.sent) as nat)
    }

    /// A producer that has `quota` messages to send, up to `batch_size` in one call. Without
    /// server side routing it takes turns between its partitions; with it there is one place,
    /// which the server ignores.
    pub fn new(
        id: usize,
        partitions: Vec<u32>,
        balanced: bool,
        quota: u64,
        batch_size: u32,
        message_size: usize,
    ) -> (s: ProducerSession)
        requires
            quota > 0 ==> partitions@.len() > 0,
        ensures
            s.wf(),
            s.id == id,
            s.partitions == partitions,
            s.balanced == balanced,
            s.slots == if balanced {
                1
            } else {
                partitions@.len()
            },
            s.quota == quota,
            s.batch_size == batch_size,
            s.sent == 0,
            s.sends == 0,
            forall|i: int| 0 <= i < s.sequences@.len() ==> #[trigger] s.sequences@[i] == 0,
            s.payload_size == padded_size(message_size),
            recorded(s.histogram) == Multiset::<u64>::empty(),
            s.send_stats.producer_id == id,
            s.send_stats.send_count == 0,
            s.send_stats.total_messages == 0,
            s.send_stats.total_bytes == 0,
    {
        let payload_size: usize = if message_size < DiagnosticPayload::SIZE {
            DiagnosticPayload::SIZE
        } else {
            message_size
        };
        let sequences: Vec<u64> = vec![0u64; partitions.len()];
        let slots: usize = place_count(&partitions, balanced);
        ProducerSession {
            id,
            partitions,
            balanced,
            slots,
            quota,
            batch_size,
            sent: 0,
            sends: 0,
            sequences,
            payload_size,
            histogram: new_histogram(),
            send_stats: ProducerSendStats::new(id),
        }
    }

    /// Whether there is something left to send.
    pub fn unfinished(&self) -> (r: bool)
        ensures
            r == (self.sent < self.quota),
    {
        self.sent < self.quota
    }

    /// The place whose turn it is.
    pub fn current_slot(&self) -> (slot: usize)
        requires
            self.wf(),
            self.sent < self.quota,
        ensures
            slot == self.place(),
            slot < self.slots,
    {
        let slot: u64 = self.sends % self.slots as u64;
        proof {
            vstd::arithmetic::div_mod::lemma_mod_bound(self.sends as int, self.slots as int);
        }
        slot as usize
    }

    /// The number of messages for the next send call; at least one as long as there is something
    /// left to send.
    pub fn current_length(&self) -> (n: u64)
        requires
            self.wf(),
        ensures
            n == self.next_length(),
            n > 0 <==> self.sent < self.quota,
    {
        let full: u64 = if self.batch_size == 0 { 1 } else { self.batch_size as u64 };
        let left: u64 = self.quota - self.sent;
        if left < full {
            left
        } else {
            full
        }
    }

    /// Makes the messages for the next send call, stamped with the present time.
    pub fn compose(&mut self) -> (m: Outgoing)
        requires
            old(self).wf(),
            old(self).sent < old(self).quota,
            old(self).sequences@[old(self).place()] + old(self).next_length() <= u64::MAX,
        ensures
            final(self).wf(),
            exists|timestamp_us: u64| #[trigger]
                old(self).composed(*final(self), m, timestamp_us),
    {
        let timestamp_us: u64 = wall_clock_micros();
        let m: Outgoing = self.compose_at(timestamp_us);
        assert(old(self).composed(*self, m, timestamp_us));
        m
    }

    /// The record of message `i` of the next send call.
    pub open spec fn next_record(&self, i: int, timestamp_us: u64) -> DiagnosticPayload {
        DiagnosticPayload {
            timestamp_us,
            producer_id: self.id as u32,
            partition_id: self.partitions@[self.place()],
            sequence: (self.sequences@[self.place()] + i) as u64,
        }
    }

    /// What making the messages of a send call at a given time does: they go to the place whose
    /// turn it is, with the next sequence numbers of that place.
    pub open spec fn composed(
        &self,
        next: ProducerSession,
        m: Outgoing,
        timestamp_us: u64,
    ) -> bool {
        let slot = self.place();
        &&& m.route == if self.balanced {
            Route::Balanced
        } else {
            Route::Partition { partition_id: self.partitions@[slot] }
        }
        &&& m.slot == slot
        &&& m.partition_id == self.partitions@[slot]
        &&& m.first_sequence == self.sequences@[slot]
        &&& m.payloads@.len() == self.next_length()
        &&& forall|i: int|
            0 <= i < m.payloads@.len() ==> (#[trigger] m.payloads@[i])@ == message_bytes(
                self.next_record(i, timestamp_us),
                self.payload_size as nat,
            )
        &&& next.sequences@ == self.sequences@.update(
            slot,
            (self.sequences@[slot] + self.next_length()) as u64,
        )
        &&& next.id == self.id
        &&& next.partitions == self.partitions
        &&& next.balanced == self.balanced
        &&& next.slots == self.slots
        &&& next.quota == self.quota
        &&& next.batch_size == self.batch_size
        &&& next.sent == self.sent
        &&& next.sends == self.sends
        &&& next.payload_size == self.payload_size
        &&& next.histogram == self.histogram
        &&& next.send_stats == self.send_stats
    }

    /// Makes the messages for the next send call, stamped with the given time.
    pub fn compose_at(&mut self, timestamp_us: u64) -> (m: Outgoing)
        requires
            old(self).wf(),
            old(self).sent < old(self).quota,
            old(self).sequences@[old(self).place()] + old(self).next_length() <= u64::MAX,
        ensures
            final(self).wf(),
            old(self).composed(*final(self), m, timestamp_us),
    {
        let slot: usize = self.current_slot();
        let count: u64 = self.current_length();
        let partition_id: u32 = self.partitions[slot];
        let first_sequence: u64 = self.sequences[slot];
        let mut payloads: Vec<Vec<u8>> = Vec::new();
        let mut i: u64 = 0;
        while i < count
            invariant
                i <= count,
                self == old(self),
                self.payload_size >= 24,
                count == self.next_length(),
                slot == self.place(),
                partition_id == self.partitions@[slot as int],
                first_sequence == self.sequences@[slot as int],
                first_sequence + count <= u64::MAX,
                payloads@.len() == i,
                forall|j: int|
                    0 <= j < i ==> (#[trigger] payloads@[j])@ == message_bytes(
                        self.next_record(j, timestamp_us),
                        self.payload_size as nat,
                    ),
            decreases count - i,
        {
            let record: DiagnosticPayload = DiagnosticPayload::stamped(
                timestamp_us,
                self.id as u32,
                partition_id,
                first_sequence + i,
            );
            assert(record == self.next_record(i as int, timestamp_us));
            payloads.push(make_message(record, self.payload_size));
            i = i + 1;
        }
        self.sequences[slot] = first_sequence + count;
        let route: Route = if self.balanced {
            Route::Balanced
        } else {
            Route::Partition { partition_id }
        };
        Outgoing { route, slot, partition_id, first_sequence, payloads }
    }

    /// What the acceptance of the messages `m` after `latency_us` does to the progress and to the
    /// trackers.
    pub open spec fn accepted(
        &self,
        next: ProducerSession,
        m: Outgoing,
        latency_us: u64,
        diagnostics: bool,
        trackers: Map<u32, PartitionTracker>,
        next_trackers: Map<u32, PartitionTracker>,
    ) -> bool {
        let n = m.payloads@.len();
        let (was, is) = (self.send_stats, next.send_stats);
        &&& next.sent == self.sent + n
        &&& next.sends == self.sends + 1
        &&& next.id == self.id
        &&& next.partitions == self.partitions
        &&& next.balanced == self.balanced
        &&& next.slots == self.slots
        &&& next.quota == self.quota
        &&& next.batch_size == self.batch_size
        &&& next.sequences == self.sequences
        &&& next.payload_size == self.payload_size
        &&& recorded(next.histogram) == recorded(self.histogram).insert(
            bucket_floor(latency_us as nat) as u64,
        )
        &&& !diagnostics ==> is == was && next_trackers == trackers
        &&& diagnostics ==> {
            &&& is.send_count == was.send_count + 1
            &&& is.total_messages == was.total_messages + n
            &&& is.total_bytes == was.total_bytes + n * self.payload_size
            &&& next_trackers == with_batch_produced(
                trackers,
                m.partition_id,
                m.first_sequence,
                n,
                self.payload_size as u64,
            )
        }
    }

    /// Takes note that the messages `m` were accepted after `latency_us`.
    pub fn delivered(
        &mut self,
        m: &Outgoing,
        latency_us: u64,
        diagnostics: bool,
        trackers: &mut PartitionTrackers,
    )
        requires
            old(self).wf(),
            old(trackers).wf(),
            0 < m.payloads@.len() <= old(self).quota - old(self).sent,
            diagnostics ==> m.first_sequence + m.payloads@.len() <= u64::MAX,
            diagnostics ==> old(self).send_stats.total_bytes + m.payloads@.len() * old(
                self,
            ).payload_size <= u64::MAX,
        ensures
            final(self).wf(),
            final(trackers).wf(),
            old(self).accepted(
                *final(self),
                *m,
                latency_us,
                diagnostics,
                old(trackers)@,
                final(trackers)@,
            ),
            final(self).sent == old(self).sent + m.payloads@.len(),
            final(self).sends == old(self).sends + 1,
            final(self).id == old(self).id,
            final(self).partitions == old(self).partitions,
            final(self).balanced == old(self).balanced,
            final(self).slots == old(self).slots,
            final(self).quota == old(self).quota,
            final(self).batch_size == old(self).batch_size,
            final(self).sequences == old(self).sequences,
            final(self).payload_size == old(self).payload_size,
            recorded(final(self).histogram) == recorded(old(self).histogram).insert(
                bucket_floor(latency_us as nat) as u64,
            ),
            !diagnostics ==> final(self).send_stats == old(self).send_stats && final(trackers)@
                == old(trackers)@,
            diagnostics ==> {
                let (was, is) = (old(self).send_stats, final(self).send_stats);
                &&& is.producer_id == was.producer_id
                &&& is.send_count == was.send_count + 1
                &&& is.total_messages == was.total_messages + m.payloads@.len()
                &&& is.total_bytes == was.total_bytes + m.payloads@.len() * old(self).payload_size
                &&& recorded(is.send_duration_hist) == recorded(was.send_duration_hist).insert(
                    bucket_floor(latency_us as nat) as u64,
                )
                &&& recorded(is.messages_per_send_hist) == recorded(
                    was.messages_per_send_hist,
                ).insert(bucket_floor(m.payloads@.len()) as u64)
                &&& final(trackers)@ == with_batch_produced(
                    old(trackers)@,
                    m.partition_id,
                    m.first_sequence,
                    m.payloads@.len(),
                    old(self).payload_size as u64,
                )
            },
    {
        let count: u64 = m.payloads.len() as u64;
        count_value(&mut self.histogram, latency_us);
        if diagnostics {
            let size: u64 = self.payload_size as u64;
            assert(0 <= count * size <= u64::MAX) by (nonlinear_arith)
                requires
                    self.send_stats.total_bytes + count * size <= u64::MAX,
            ;
            self.send_stats.record_send(latency_us, count, count * size);
            record_batch(trackers, m.partition_id, m.first_sequence, count, size);
        }
        self.sent = self.sent + count;
        self.sends = self.sends + 1;
    }
}

/// The trackers after a message has been produced to a partition, where that is tracked.
pub open spec fn with_produced(
    trackers: Map<u32, PartitionTracker>,
    partition_id: u32,
    sequence: u64,
    bytes: u64,
) -> Map<u32, PartitionTracker> {
    if trackers.contains_key(partition_id) {
        trackers.insert(partition_id, after_produce(trackers[partition_id], sequence, bytes))
    } else {
        trackers
    }
}

/// The trackers after `count` messages of `bytes` bytes each have been produced to a partition,
/// with sequence numbers from `first` on.
pub open spec fn with_batch_produced(
    trackers: Map<u32, PartitionTracker>,
    partition_id: u32,
    first: u64,
    count: nat,
    bytes: u64,
) -> Map<u32, PartitionTracker>
    decreases count,
{
    if count == 0 {
        trackers
    } else {
        let last = (count - 1) as nat;
        with_produced(
            with_batch_produced(trackers, partition_id, first, last, bytes),
            partition_id,
            (first + last) as u64,
            bytes,
        )
    }
}

/// Takes note of messages that were produced to a partition in one call.
fn record_batch(
    trackers: &mut PartitionTrackers,
    partition_id: u32,
    first: u64,
    count: u64,
    bytes: u64,
)
    requires
        old(trackers).wf(),
        first + count <= u64::MAX,
    ensures
        final(trackers).wf(),
        final(trackers)@ == with_batch_produced(
            old(trackers)@,
            partition_id,
            first,
            count as nat,
            bytes,
        ),
{
    let mut i: u64 = 0;
    while i < count
        invariant
            i <= count,
            first + count <= u64::MAX,
            trackers.wf(),
            trackers@ == with_batch_produced(
                old(trackers)@,
                partition_id,
                first,
                i as nat,
                bytes,
            ),
        decreases count - i,
    {
        trackers.record_produce(partition_id, first + i, bytes);
        i = i + 1;
    }
}

/// A batch is counted message by message at the partition that it was produced to, and nowhere
/// else.
pub proof fn law_batch_is_counted_by_message(
    trackers: Map<u32, PartitionTracker>,
    partition_id: u32,
    first: u64,
    count: nat,
    bytes: u64,
)
    requires
        trackers.contains_key(partition_id),
        count > 0,
        first + count <= u64::MAX,
    ensures
        ({
            let after = with_batch_produced(trackers, partition_id, first, count, bytes);
            let (was, is) = (trackers[partition_id], after[partition_id]);
            &&& after == trackers.insert(partition_id, is)
            &&& is.produced_count == (was.produced_count + count) % 0x1_0000_0000_0000_0000
            &&& is.produced_seq == if was.produced_seq < first + count - 1 {
                (first + count - 1) as u64
            } else {
                was.produced_seq
            }
        }),
    decreases count,
{
    let was = trackers[partition_id];
    let last = (count - 1) as nat;
    let before = with_batch_produced(trackers, partition_id, first, last, bytes);
    let after = with_batch_produced(trackers, partition_id, first, count, bytes);
    if last > 0 {
        law_batch_is_counted_by_message(trackers, partition_id, first, last, bytes);
        vstd::arithmetic::div_mod::lemma_add_mod_noop_right(
            1,
            was.produced_count + last,
            0x1_0000_0000_0000_0000,
        );
    } else {
        assert(before == trackers);
    }
    assert(after =~= trackers.insert(partition_id, after[partition_id]));
}

/// Among any `slots` send calls in a row, each place has its turn, and only once.
pub proof fn law_places_take_turns(from: nat, slots: nat, slot: nat) -> (sends: nat)
    requires
        slot < slots,
    ensures
        from <= sends < from + slots,
        turn(sends, slots) == slot,
        forall|other: nat|
            from <= other < from + slots && other != sends ==> #[trigger] turn(other, slots)
                != slot,
{
    let n = slots as int;
    let r = from % slots;
    vstd::arithmetic::div_mod::lemma_mod_bound(from as int, n);
    let ahead = if slot >= r {
        (slot - r) as nat
    } else {
        (slot + slots - r) as nat
    };
    let sends = from + ahead;
    vstd::arithmetic::div_mod::lemma_fundamental_div_mod(from as int, n);
    let q = from / slots;
    assert(n * q == q * n) by (nonlinear_arith);
    if slot >= r {
        vstd::arithmetic::div_mod::lemma_fundamental_div_mod_converse(
            sends as int,
            n,
            q as int,
            slot as int,
        );
    } else {
        assert((q + 1) * n == q * n + n) by (nonlinear_arith);
        vstd::arithmetic::div_mod::lemma_fundamental_div_mod_converse(
            sends as int,
            n,
            (q + 1) as int,
            slot as int,
        );
    }
    assert forall|other: nat|
        from <= other < from + slots && other != sends implies #[trigger] turn(other, slots)
        != slot by {
        if turn(other, slots) == slot {
            let (hi, lo) = if other > sends {
                (other, sends)
            } else {
                (sends, other)
            };
            vstd::arithmetic::div_mod::lemma_mod_equivalence(hi as int, lo as int, n);
            vstd::arithmetic::div_mod::lemma_small_mod((hi - lo) as nat, slots);
        }
    }
    sends
}

/// A message that has been received.
pub struct Received {
    /// When the server says that it was sent, in microseconds; zero where it does not say.
    pub origin_timestamp: u64,
    pub payload: Vec<u8>,
}

/// What a poll brought.
pub struct PolledBatch {
    pub partition_id: u32,
    pub messages: Vec<Received>,
}

/// What a consumer does before it polls again.
#[derive(Clone, Copy, Debug, PartialEq, Eq, Structural)]
pub enum Pause {
    /// Polls again at once.
    Nothing,
    /// Lets other tasks run.
    Yield,
    /// Sleeps for so many microseconds.
    Sleep { micros: u64 },
}

/// The time that a message took: from the stamp of the server, or else from the one in its
/// payload. A message without either has none.
pub open spec fn latency_of(m: Received, receive_us: u64) -> Option<u64> {
    if m.origin_timestamp > 0 {
        Some(shortfall(receive_us, m.origin_timestamp))
    } else if m.payload@.len() >= 8 {
        Some(shortfall(receive_us, le_value(m.payload@.subrange(0, 8)) as u64))
    } else {
        None
    }
}

/// The time that a message took.
pub fn message_latency(m: &Received, receive_us: u64) -> (r: Option<u64>)
    ensures
        r == latency_of(*m, receive_us),
{
    if m.origin_timestamp > 0 {
        Some(receive_us.saturating_sub(m.origin_timestamp))
    } else if m.payload.len() >= 8 {
        Some(receive_us.saturating_sub(read_u64(m.payload.as_slice())))
    } else {
        None
    }
}

/// `counted`, and the times that some messages took.
pub open spec fn with_latencies(
    counted: Multiset<u64>,
    messages: Seq<Received>,
    receive_us: u64,
) -> Multiset<u64>
    decreases messages.len(),
{
    if messages.len() == 0 {
        counted
    } else {
        let before = with_latencies(counted, messages.drop_last(), receive_us);
        match latency_of(messages.last(), receive_us) {
            Some(latency) => before.insert(bucket_floor(latency as nat) as u64),
            None => before,
        }
    }
}

/// The trackers after some messages have been consumed: each message is noted at the partition
/// that its payload names.
pub open spec fn with_consumed(
    trackers: Map<u32, PartitionTracker>,
    messages: Seq<Received>,
    message_size: u64,
) -> Map<u32, PartitionTracker>
    decreases messages.len(),
{
    if messages.len() == 0 {
        trackers
    } else {
        let before = with_consumed(trackers, messages.drop_last(), message_size);
        match decoding(messages.last().payload@) {
            Some(record) => if before.contains_key(record.partition_id) {
                before.insert(
                    record.partition_id,
                    after_consume(before[record.partition_id], record.sequence, message_size),
                )
            } else {
                before
            },
            None => before,
        }
    }
}

/// The number of polls in vain after which a consumer stops, once the producers are done.
pub const LAST_EMPTY_POLLS: i32 = 100;

/// A consumer's progress.
pub struct ConsumerSession {
    pub id: usize,
    /// The number of polls in vain since the last message.
    pub empty_polls: i32,
    pub messages: u64,
    pub histogram: SampleHistogram,
    /// The partitions that messages came from.
    pub partitions_seen: Vec<u32>,
    pub poll_stats: ConsumerPollStats,
}

impl ConsumerSession {
    /// There are no more latencies than messages, and no partition is listed twice.
    pub open spec fn wf(&self) -> bool {
        &&& self.empty_polls >= 0
        &&& standard(self.histogram)
        &&& recorded(self.histogram).len() <= self.messages
        &&& self.partitions_seen@.no_duplicates()
        &&& self.poll_stats.wf()
        &&& self.poll_stats.total_messages <= self.messages
    }

    /// A consumer that has not polled yet.
    pub fn new(id: usize) -> (s: ConsumerSession)
        ensures
            s.wf(),
            s.id == id,
            s.empty_polls == 0,
            s.messages == 0,
            recorded(s.histogram) == Multiset::<u64>::empty(),
            s.partitions_seen@ == Seq::<u32>::empty(),
            s.poll_stats.consumer_id == id,
            s.poll_stats.poll_count == 0,
    {
        ConsumerSession {
            id,
            empty_polls: 0,
            messages: 0,
            histogram: new_histogram(),
            partitions_seen: Vec::new(),
            poll_stats: ConsumerPollStats::new(id),
        }
    }

    /// Whether the consumer goes on: until the producers are done and it has polled in vain
    /// often enough.
    pub open spec fn goes_on(&self, producer_done: bool) -> bool {
        !producer_done || self.empty_polls < LAST_EMPTY_POLLS
    }

    /// Whether the consumer goes on: until the producers are done and it has polled in vain
    /// often enough.
    pub fn keeps_polling(&self, producer_done: bool) -> (r: bool)
        ensures
            r == (!producer_done || self.empty_polls < LAST_EMPTY_POLLS),
            r == (!producer_done || self.empty_polls < 100),
            r == self.goes_on(producer_done),
    {
        !producer_done || self.empty_polls < LAST_EMPTY_POLLS
    }

    /// What a batch of messages does to the progress.
    pub open spec fn took(
        &self,
        next: ConsumerSession,
        batch: PolledBatch,
        receive_us: u64,
    ) -> bool {
        &&& next.id == self.id
        &&& next.empty_polls == 0
        &&& next.messages == self.messages + batch.messages@.len()
        &&& recorded(next.histogram) == with_latencies(
            recorded(self.histogram),
            batch.messages@,
            receive_us,
        )
        &&& next.partitions_seen@ == if self.partitions_seen@.contains(batch.partition_id) {
            self.partitions_seen@
        } else {
            self.partitions_seen@.push(batch.partition_id)
        }
    }

    /// What a poll in vain does to the progress.
    pub open spec fn missed(&self, next: ConsumerSession) -> bool {
        &&& next.id == self.id
        &&& next.empty_polls == self.empty_polls + 1
        &&& next.messages == self.messages
        &&& next.histogram == self.histogram
        &&& next.partitions_seen == self.partitions_seen
    }

    /// What a poll does to its own figures, where they are kept.
    pub open spec fn noted(
        &self,
        next: ConsumerSession,
        poll_duration_us: u64,
        message_count: u64,
        diagnostics: bool,
    ) -> bool {
        if diagnostics {
            exists|since_last_us: u64| #[trigger]
                self.poll_stats.polled(
                    next.poll_stats,
                    poll_duration_us,
                    message_count,
                    since_last_us,
                )
        } else {
            next.poll_stats == self.poll_stats
        }
    }

    /// Takes note of a batch of messages that were received at `receive_us`.
    pub fn take_batch_at(
        &mut self,
        batch: &PolledBatch,
        receive_us: u64,
        poll_duration_us: u64,
        diagnostics: bool,
        message_size: u64,
        trackers: &mut PartitionTrackers,
    )
        requires
            old(self).wf(),
            old(trackers).wf(),
            old(self).messages + batch.messages@.len() <= u64::MAX,
            diagnostics ==> old(self).poll_stats.poll_count < u64::MAX,
        ensures
            final(self).wf(),
            final(trackers).wf(),
            old(self).took(*final(self), *batch, receive_us),
            old(self).noted(
                *final(self),
                poll_duration_us,
                batch.messages@.len() as u64,
                diagnostics,
            ),
            final(trackers)@ == if diagnostics {
                with_consumed(old(trackers)@, batch.messages@, message_size)
            } else {
                old(trackers)@
            },
    {
        self.empty_polls = 0;
        let count: u64 = batch.messages.len() as u64;
        if diagnostics {
            self.poll_stats.record_poll(poll_duration_us, count);
        }
        let ghost noted_stats = self.poll_stats;
        if !contains(&self.partitions_seen, batch.partition_id) {
            self.partitions_seen.push(batch.partition_id);
        }
        let ghost seen = self.partitions_seen@;
        let ghost counted = recorded(self.histogram);
        let ghost noted_before = trackers@;
        let mut i: usize = 0;
        assert(batch.messages@.take(0).len() == 0);
        while i < batch.messages.len()
            invariant
                i <= batch.messages@.len(),
                self.id == old(self).id,
                self.empty_polls == 0,
                self.messages == old(self).messages,
                old(self).messages + batch.messages@.len() <= u64::MAX,
                counted == recorded(old(self).histogram),
                counted.len() <= old(self).messages,
                self.partitions_seen@ == seen,
                self.poll_stats == noted_stats,
                standard(self.histogram),
                recorded(self.histogram) == with_latencies(
                    counted,
                    batch.messages@.take(i as int),
                    receive_us,
                ),
                recorded(self.histogram).len() <= counted.len() + i,
                trackers.wf(),
                noted_before == old(trackers)@,
                trackers@ == if diagnostics {
                    with_consumed(noted_before, batch.messages@.take(i as int), message_size)
                } else {
                    noted_before
                },
            decreases batch.messages@.len() - i,
        {
            let m: &Received = &batch.messages[i];
            proof {
                let next = batch.messages@.take(i + 1);
                assert(next.drop_last() =~= batch.messages@.take(i as int));
                assert(next.last() == batch.messages@[i as int]);
            }
            if let Some(latency) = message_latency(m, receive_us) {
                count_value(&mut self.histogram, latency);
            }
            if diagnostics {
                if let Some(record) = DiagnosticPayload::from_bytes(m.payload.as_slice()) {
                    trackers.record_consume(record.partition_id, record.sequence, message_size);
                }
            }
            i = i + 1;
        }
        assert(batch.messages@.take(batch.messages@.len() as int) =~= batch.messages@);
        self.messages = self.messages + count;
    }

    /// Takes note of a poll that brought nothing or failed.
    pub fn miss(&mut self, poll_duration_us: u64, diagnostics: bool, poll_interval_us: u64) -> (r:
        Pause)
        requires
            old(self).wf(),
            old(self).empty_polls < i32::MAX,
            diagnostics ==> old(self).poll_stats.poll_count < u64::MAX,
        ensures
            final(self).wf(),
            old(self).missed(*final(self)),
            old(self).noted(*final(self), poll_duration_us, 0, diagnostics),
            r == if poll_interval_us > 0 {
                Pause::Sleep { micros: poll_interval_us }
            } else {
                Pause::Yield
            },
    {
        self.empty_polls = self.empty_polls + 1;
        if diagnostics {
            self.poll_stats.record_poll(poll_duration_us, 0);
        }
        if poll_interval_us > 0 {
            Pause::Sleep { micros: poll_interval_us }
        } else {
            Pause::Yield
        }
    }

    /// What the outcome of a poll does to the progress and to the trackers, where messages are
    /// received at `receive_us`.
    pub open spec fn advanced(
        &self,
        next: ConsumerSession,
        trackers: Map<u32, PartitionTracker>,
        next_trackers: Map<u32, PartitionTracker>,
        polled: Option<PolledBatch>,
        receive_us: u64,
        poll_duration_us: u64,
        diagnostics: bool,
        message_size: u64,
    ) -> bool {
        if brought_messages(polled) {
            let batch = polled->Some_0;
            &&& self.took(next, batch, receive_us)
            &&& self.noted(next, poll_duration_us, batch.messages@.len() as u64, diagnostics)
            &&& next_trackers == if diagnostics {
                with_consumed(trackers, batch.messages@, message_size)
            } else {
                trackers
            }
        } else {
            &&& self.missed(next)
            &&& self.noted(next, poll_duration_us, 0, diagnostics)
            &&& next_trackers == trackers
        }
    }

    /// Takes note of the outcome of a poll that ended at `receive_us`: a batch, which may be
    /// empty, or a failure.
    pub fn on_poll_at(
        &mut self,
        polled: &Option<PolledBatch>,
        receive_us: u64,
        poll_duration_us: u64,
        diagnostics: bool,
        message_size: u64,
        poll_interval_us: u64,
        trackers: &mut PartitionTrackers,
    ) -> (r: Pause)
        requires
            old(self).wf(),
            old(trackers).wf(),
            old(self).empty_polls < i32::MAX,
            diagnostics ==> old(self).poll_stats.poll_count < u64::MAX,
            *polled matches Some(batch) ==> old(self).messages + batch.messages@.len() <= u64::MAX,
        ensures
            final(self).wf(),
            final(trackers).wf(),
            old(self).advanced(
                *final(self),
                old(trackers)@,
                final(trackers)@,
                *polled,
                receive_us,
                poll_duration_us,
                diagnostics,
                message_size,
            ),
            r == pause_after(*polled, poll_interval_us),
    {
        if let Some(batch) = polled {
            if batch.messages.len() > 0 {
                self.take_batch_at(
                    batch,
                    receive_us,
                    poll_duration_us,
                    diagnostics,
                    message_size,
                    trackers,
                );
                return Pause::Nothing;
            }
        }
        self.miss(poll_duration_us, diagnostics, poll_interval_us)
    }

    /// Takes note of the outcome of a poll that has just ended.
    pub fn on_poll(
        &mut self,
        polled: &Option<PolledBatch>,
        poll_duration_us: u64,
        diagnostics: bool,
        message_size: u64,
        poll_interval_us: u64,
        trackers: &mut PartitionTrackers,
    ) -> (r: Pause)
        requires
            old(self).wf(),
            old(trackers).wf(),
            old(self).empty_polls < i32::MAX,
            diagnostics ==> old(self).poll_stats.poll_count < u64::MAX,
            *polled matches Some(batch) ==> old(self).messages + batch.messages@.len() <= u64::MAX,
        ensures
            final(self).wf(),
            final(trackers).wf(),
            exists|receive_us: u64| #[trigger]
                old(self).advanced(
                    *final(self),
                    old(trackers)@,
                    final(trackers)@,
                    *polled,
                    receive_us,
                    poll_duration_us,
                    diagnostics,
                    message_size,
                ),
            r == pause_after(*polled, poll_interval_us),
    {
        let receive_us: u64 = wall_clock_micros();
        let r: Pause = self.on_poll_at(
            polled,
            receive_us,
            poll_duration_us,
            diagnostics,
            message_size,
            poll_interval_us,
            trackers,
        );
        assert(old(self).advanced(
            *self,
            old(trackers)@,
            trackers@,
            *polled,
            receive_us,
            poll_duration_us,
            diagnostics,
            message_size,
        ));
        r
    }

    /// The partitions that messages came from, in ascending order.
    pub fn sorted_partitions(&self) -> (r: Vec<u32>)
        ensures
            ascending(r@),
            r@.to_multiset() == self.partitions_seen@.to_multiset(),
    {
        let mut r: Vec<u32> = Vec::new();
        let mut i: usize = 0;
        proof {
            assert(self.partitions_seen@.take(0) =~= r@);
        }
        while i < self.partitions_seen.len()
            invariant
                i <= self.partitions_seen@.len(),
                ascending(r@),
                r@.to_multiset() == self.partitions_seen@.take(i as int).to_multiset(),
            decreases self.partitions_seen@.len() - i,
        {
            let x: u32 = self.partitions_seen[i];
            proof {
                assert(self.partitions_seen@.take(i + 1) =~= self.partitions_seen@.take(
                    i as int,
                ).push(x));
                self.partitions_seen@.take(i as int).to_multiset_ensures();
            }
            insert_sorted(&mut r, x);
            i = i + 1;
        }
        assert(self.partitions_seen@.take(self.partitions_seen@.len() as int)
            =~= self.partitions_seen@);
        r
    }
}

/// Whether a poll brought messages.
pub open spec fn brought_messages(polled: Option<PolledBatch>) -> bool {
    polled matches Some(batch) && batch.messages@.len() > 0
}

/// What a consumer does after a poll: it goes on at once where the poll brought messages, and
/// otherwise sleeps for the interval, or lets other tasks run where that is zero.
pub open spec fn pause_after(polled: Option<PolledBatch>, poll_interval_us: u64) -> Pause {
    if brought_messages(polled) {
        Pause::Nothing
    } else if poll_interval_us > 0 {
        Pause::Sleep { micros: poll_interval_us }
    } else {
        Pause::Yield
    }
}

/// Whether no entry is less than one before it.
pub open spec fn ascending(list: Seq<u32>) -> bool {
    forall|i: int, j: int| 0 <= i <= j < list.len() ==> list[i] <= list[j]
}

/// Inserts a number into an ascending list.
fn insert_sorted(list: &mut Vec<u32>, x: u32)
    requires
        ascending(old(list)@),
    ensures
        ascending(final(list)@),
        final(list)@.to_multiset() == old(list)@.to_multiset().insert(x),
{
    let mut at: usize = list.len();
    while at > 0 && list[at - 1] > x
        invariant
            at <= list@.len(),
            list@ == old(list)@,
            ascending(list@),
            forall|i: int| at <= i < list@.len() ==> #[trigger] list@[i] > x,
        decreases at,
    {
        at = at - 1;
    }
    list.insert(at, x);
    proof {
        vstd::seq_lib::to_multiset_insert(old(list)@, at as int, x);
        assert(list@ =~= old(list)@.insert(at as int, x));
        assert(ascending(list@)) by {
            assert forall|i: int, j: int| 0 <= i <= j < list@.len() implies list@[i] <= list@[j] by {
                if j < at {
                    assert(list@[j] == old(list)@[j]);
                } else if j > at {
                    assert(list@[j] == old(list)@[j - 1]);
                }
                if i < at {
                    assert(list@[i] == old(list)@[i]);
                    assert(old(list)@[i] <= old(list)@[at - 1]);
                } else if i > at {
                    assert(list@[i] == old(list)@[i - 1]);
                }
            }
        }
    }
}

fn contains(list: &Vec<u32>, x: u32) -> (r: bool)
    ensures
        r == list@.contains(x),
{
    let mut i: usize = 0;
    while i < list.len()
        invariant
            i <= list@.len(),
            forall|j: int| 0 <= j < i ==> list@[j] != x,
        decreases list@.len() - i,
    {
        if list[i] == x {
            return true;
        }
        i = i + 1;
    }
    false
}

/// A message is read back whole: its length is the message size, and its record and time stamp
/// are those that were written.
pub proof fn law_message_is_read_back(record: DiagnosticPayload, size: nat)
    requires
        size >= 24,
    ensures
        message_bytes(record, size).len() == size,
        decoding(message_bytes(record, size)) == Some(record),
        le_value(message_bytes(record, size).subrange(0, 8)) == record.timestamp_us,
{
    law_decoding_inverts_encoding(record, Seq::new((size - 24) as nat, |i: int| 0u8));
    lemma_le_value_bytes(message_bytes(record, size).subrange(0, 8));
    lemma_pow256_sizes();
}

/// The time that a message took is counted from the moment at which it was made, where the
/// server does not say when it was sent.
pub proof fn law_latency_counts_from_the_stamp(
    record: DiagnosticPayload,
    size: nat,
    m: Received,
    receive_us: u64,
)
    requires
        size >= 24,
        m.payload@ == message_bytes(record, size),
        m.origin_timestamp == 0,
    ensures
        latency_of(m, receive_us) == Some(shortfall(receive_us, record.timestamp_us)),
{
    law_message_is_read_back(record, size);
}

/// A message is noted as consumed at the partition and with the sequence number that it was
/// made with.
pub proof fn law_consumption_is_noted_where_produced(
    trackers: Map<u32, PartitionTracker>,
    record: DiagnosticPayload,
    size: nat,
    m: Received,
    message_size: u64,
)
    requires
        size >= 24,
        m.payload@ == message_bytes(record, size),
        trackers.contains_key(record.partition_id),
    ensures
        with_consumed(trackers, seq![m], message_size) == trackers.insert(
            record.partition_id,
            after_consume(trackers[record.partition_id], record.sequence, message_size),
        ),
{
    law_message_is_read_back(record, size);
    let one = seq![m];
    assert(one.drop_last().len() == 0);
    assert(with_consumed(trackers, one.drop_last(), message_size) == trackers);
    assert(one.last() == m);
}

/// A partition has no lag once the message that was produced to it last has been consumed.
pub proof fn law_delivery_clears_the_lag(
    trackers: Map<u32, PartitionTracker>,
    record: DiagnosticPayload,
    size: nat,
    m: Received,
    message_size: u64,
)
    requires
        size >= 24,
        m.payload@ == message_bytes(record, size),
        trackers.contains_key(record.partition_id),
        trackers[record.partition_id].produced_seq <= record.sequence,
    ensures
        ({
            let produced = with_produced(
                trackers,
                record.partition_id,
                record.sequence,
                size as u64,
            );
            let t = with_consumed(produced, seq![m], message_size)[record.partition_id];
            shortfall(t.produced_seq, t.consumed_seq) == 0
        }),
{
    let produced = with_produced(trackers, record.partition_id, record.sequence, size as u64);
    law_consumption_is_noted_where_produced(produced, record, size, m, message_size);
}

/// A producer waits for some time or not at all, and not at all without a limit or behind the
/// schedule.
pub proof fn law_pacing_delay_is_positive(
    total_sent: u64,
    throughput: u64,
    elapsed_secs: Binary64,
)
    ensures
        throughput == 0 ==> pacing_delay(total_sent, throughput, elapsed_secs) is None,
        !less(
            elapsed_secs,
            quotient(of_integer(total_sent as nat), of_integer(throughput as nat)),
        ) ==> pacing_delay(total_sent, throughput, elapsed_secs) is None,
        pacing_delay(total_sent, throughput, elapsed_secs) matches Some(delay) ==> less(
            Binary64 { bits: 0 },
            delay,
        ),
{
    let expected = quotient(of_integer(total_sent as nat), of_integer(throughput as nat));
    if less(elapsed_secs, expected) {
        law_difference_is_positive(elapsed_secs, expected);
    }
}

/// The producers keep the target. One that is clearly ahead of the schedule waits, one that is
/// clearly behind it does not, and after the wait as much time has passed as the messages sent so
/// far may take. The margins are those of rounding, one part in 2^50.
pub proof fn law_producer_keeps_the_target(
    total_sent: u64,
    throughput: u64,
    elapsed_secs: Binary64,
)
    requires
        throughput > 0,
        !elapsed_secs.nan(),
    ensures
        ({
            let delay = pacing_delay(total_sent, throughput, elapsed_secs);
            let passed = elapsed_secs.exact() * throughput;
            let due = total_sent * pow2(1074);
            &&& passed * 0x4_0000_0000_0000 < due * 0x3_ffff_ffff_ffff ==> delay is Some
            &&& passed * 0x4_0000_0000_0000 >= due * 0x4_0000_0000_0001 ==> delay is None
            &&& delay is Some && passed >= 0 ==> {
                let d = delay->Some_0;
                let after = (elapsed_secs.exact() + d.exact()) * throughput;
                &&& !d.nan() && d.exact() > 0
                &&& after * 0x4_0000_0000_0000 >= due * 0x3_ffff_ffff_ffff
                &&& after * 0x4_0000_0000_0000 <= due * 0x4_0000_0000_0001
            }
        }),
{
    let expected = quotient(of_integer(total_sent as nat), of_integer(throughput as nat));
    let e = elapsed_secs.exact();
    let (passed, due) = (e * throughput, total_sent * pow2(1074));
    lemma_pow2_pos(1074);
    assert(e >= 0 <==> passed >= 0) by (nonlinear_arith)
        requires
            passed == e * throughput,
            throughput > 0,
    ;
    if total_sent == 0 {
        assert(due == 0) by (nonlinear_arith)
            requires
                due == total_sent * pow2(1074),
                total_sent == 0,
        ;
        lemma_nothing_sent(throughput);
    } else {
        law_quotient_of_integers_is_close(total_sent as nat, throughput as nat);
        let x = expected.exact();
        let found = x * throughput;
        assert(due > 0) by (nonlinear_arith)
            requires
                due == total_sent * pow2(1074),
                total_sent > 0,
                pow2(1074) > 0,
        ;
        assert(e < x <==> passed < found) by (nonlinear_arith)
            requires
                passed == e * throughput,
                found == x * throughput,
                throughput > 0,
        ;
        if e < x && e >= 0 {
            lemma_finite_below(elapsed_secs, expected);
            law_difference_is_close(expected, elapsed_secs);
            let d = difference(expected, elapsed_secs).exact();
            let after = (e + d) * throughput;
            assert((e + d) * 0x20_0000_0000_0000 <= x * 0x20_0000_0000_0001);
            assert((e + d) * 0x20_0000_0000_0000 >= x * 0x1f_ffff_ffff_ffff);
            assert(after * 0x20_0000_0000_0000 <= found * 0x20_0000_0000_0001) by (nonlinear_arith)
                requires
                    (e + d) * 0x20_0000_0000_0000 <= x * 0x20_0000_0000_0001,
                    after == (e + d) * throughput,
                    found == x * throughput,
                    throughput > 0,
            ;
            assert(after * 0x20_0000_0000_0000 >= found * 0x1f_ffff_ffff_ffff) by (nonlinear_arith)
                requires
                    (e + d) * 0x20_0000_0000_0000 >= x * 0x1f_ffff_ffff_ffff,
                    after == (e + d) * throughput,
                    found == x * throughput,
                    throughput > 0,
            ;
        }
    }
}

/// Nothing takes no time.
proof fn lemma_nothing_sent(throughput: u64)
    requires
        throughput > 0,
    ensures
        ({
            let expected = quotient(of_integer(0), of_integer(throughput as nat));
            !expected.nan() && expected.exact() == 0
        }),
{
    law_small_integers_are_exact(0);
    lemma_pow2_pos(1074);
    assert(0 * pow2(1074) == 0) by (nonlinear_arith);
    let (a, b) = (of_integer(0), of_integer(throughput as nat));
    law_integer_is_nearest(0, 0);
    law_quotient_of_integers_is_close(1, throughput as nat);
    assert(units(0) == 0);
    if a.magnitude() > 0 {
        lemma_units_monotone(0, a.magnitude());
    }
    if b.magnitude() == 0 {
        law_special_values(of_integer(1), b);
    }
    if b.nan() {
        law_special_values(of_integer(1), b);
    }
    if b.infinite() {
        assert(quotient(a, b).magnitude() == 0);
    } else {
        assert(0 * pow2(1074) == 0 * units(b.magnitude())) by (nonlinear_arith);
        law_exact_quotient(a, b, 0);
        assert(quotient(a, b) == signed(a.negative() != b.negative(), 0));
    }
}

/// A number below a finite one, and not below zero, is finite, and the two are closer than any
/// number is to infinity.
proof fn lemma_finite_below(a: Binary64, b: Binary64)
    requires
        !a.nan(),
        !b.nan() && !b.infinite(),
        0 <= a.exact() < b.exact(),
    ensures
        !a.infinite(),
        b.exact() - a.exact() < units(INFINITE as nat),
{
    lemma_units_monotone(b.magnitude(), INFINITE as nat);
    assert(units(0) == 0);
    if a.infinite() && a.negative() {
        lemma_units_monotone(0, INFINITE as nat);
    }
}

/// The time that a message took lies between the moment at which it was sent and that at which it
/// was received, in microseconds and for all stamps; none where it was received before it was
/// sent. The stamp of the server goes first, then the first eight bytes of the payload, the lowest
/// first.
pub proof fn law_latency_lies_between_the_stamps(m: Received, receive_us: u64)
    ensures
        ({
            let (o, p, r) = (m.origin_timestamp, m.payload@, latency_of(m, receive_us));
            let stamp = p[0] + 0x100 * p[1] + 0x1_0000 * p[2] + 0x100_0000 * p[3] + 0x1_0000_0000
                * p[4] + 0x100_0000_0000 * p[5] + 0x1_0000_0000_0000 * p[6]
                + 0x100_0000_0000_0000 * p[7];
            &&& o > 0 && receive_us >= o ==> r is Some && r->Some_0 + o == receive_us
            &&& o > 0 && receive_us < o ==> r == Some(0u64)
            &&& o == 0 && p.len() >= 8 && receive_us >= stamp ==> r is Some && r->Some_0 + stamp
                == receive_us
            &&& o == 0 && p.len() >= 8 && receive_us < stamp ==> r == Some(0u64)
            &&& o == 0 && p.len() < 8 ==> r is None
        }),
{
    if m.payload@.len() >= 8 {
        law_eight_bytes_add_up(m.payload@.subrange(0, 8));
    }
}

/// A message that is received later took as much longer.
pub proof fn law_later_receipt_is_longer(m: Received, receive_us: u64, later: u64)
    requires
        0 < m.origin_timestamp <= receive_us,
        receive_us + later <= u64::MAX,
    ensures
        latency_of(m, receive_us) is Some,
        latency_of(m, (receive_us + later) as u64) == Some(
            (latency_of(m, receive_us)->Some_0 + later) as u64,
        ),
{
}

/// The latencies of two batches are counted like those of one.
pub proof fn law_latencies_of_batches_add_up(
    counted: Multiset<u64>,
    a: Seq<Received>,
    b: Seq<Received>,
    receive_us: u64,
)
    ensures
        with_latencies(counted, a + b, receive_us) == with_latencies(
            with_latencies(counted, a, receive_us),
            b,
            receive_us,
        ),
    decreases b.len(),
{
    if b.len() == 0 {
        assert(a + b =~= a);
    } else {
        assert((a + b).drop_last() =~= a + b.drop_last());
        assert((a + b).last() == b.last());
        law_latencies_of_batches_add_up(counted, a, b.drop_last(), receive_us);
    }
}

/// The latency of a message is counted once where it has one, and not at all where it has none.
pub proof fn law_one_latency_is_counted(counted: Multiset<u64>, m: Received, receive_us: u64)
    ensures
        latency_of(m, receive_us) is None ==> with_latencies(counted, seq![m], receive_us)
            == counted,
        latency_of(m, receive_us) matches Some(latency) ==> with_latencies(
            counted,
            seq![m],
            receive_us,
        ) == counted.insert(bucket_floor(latency as nat) as u64),
        with_latencies(counted, Seq::empty(), receive_us) == counted,
{
    let one = seq![m];
    assert(one.drop_last() =~= Seq::<Received>::empty());
    assert(with_latencies(counted, one.drop_last(), receive_us) == counted);
    assert(one.last() == m);
}

/// Two batches are noted at the trackers like one.
pub proof fn law_consumed_batches_add_up(
    trackers: Map<u32, PartitionTracker>,
    a: Seq<Received>,
    b: Seq<Received>,
    message_size: u64,
)
    ensures
        with_consumed(trackers, a + b, message_size) == with_consumed(
            with_consumed(trackers, a, message_size),
            b,
            message_size,
        ),
    decreases b.len(),
{
    if b.len() == 0 {
        assert(a + b =~= a);
    } else {
        assert((a + b).drop_last() =~= a + b.drop_last());
        assert((a + b).last() == b.last());
        law_consumed_batches_add_up(trackers, a, b.drop_last(), message_size);
    }
}

/// A message that is too short for a record, or that names a partition that is not tracked, is
/// noted nowhere.
pub proof fn law_unknown_messages_are_not_noted(
    trackers: Map<u32, PartitionTracker>,
    m: Received,
    message_size: u64,
)
    requires
        decoding(m.payload@) matches Some(record) ==> !trackers.contains_key(record.partition_id),
    ensures
        with_consumed(trackers, seq![m], message_size) == trackers,
        with_consumed(trackers, Seq::empty(), message_size) == trackers,
{
    let one = seq![m];
    assert(one.drop_last() =~= Seq::<Received>::empty());
    assert(with_consumed(trackers, one.drop_last(), message_size) == trackers);
    assert(one.last() == m);
}

/// The next send call takes a full batch or all that is left, whichever is less, and at least one
/// message as long as any is left.
pub proof fn law_batches_are_full_or_last(batch_size: u32, left: nat)
    ensures
        ({
            let n = batch_length(batch_size, left);
            &&& n <= left
            &&& left > 0 ==> n >= 1
            &&& batch_size > 0 ==> n <= batch_size
            &&& batch_size == 0 ==> n <= 1
            &&& n < left ==> n == 1 || n == batch_size
            &&& n < left && batch_size > 0 ==> n == batch_size
        }),
{
}

/// A message has the size asked for, or that of its record where that is more.
pub proof fn law_messages_have_their_size(message_size: usize)
    ensures
        padded_size(message_size) >= 24,
        padded_size(message_size) >= message_size,
        padded_size(message_size) == 24 || padded_size(message_size) == message_size,
{
}

/// The rest of a message behind its record is zero.
pub proof fn law_padding_is_zero(record: DiagnosticPayload, size: nat)
    requires
        size >= 24,
    ensures
        forall|i: int| 24 <= i < size ==> #[trigger] message_bytes(record, size)[i] == 0,
{
    lemma_encoding_len(record);
}

/// The messages of a send call go to the partition whose turn it is, or to the server where that
/// routes them. Each carries the time, its producer, its partition and its number, and the numbers
/// go on from send call to send call.
pub proof fn law_send_call_carries_its_records(
    s: ProducerSession,
    next: ProducerSession,
    m: Outgoing,
    timestamp_us: u64,
)
    requires
        s.wf(),
        s.sent < s.quota,
        s.composed(next, m, timestamp_us),
        s.sequences@[s.sends as int % s.slots as int] + m.payloads@.len() <= u64::MAX,
    ensures
        ({
            let slot = s.sends as int % s.slots as int;
            let n = m.payloads@.len();
            &&& m.slot == slot
            &&& m.partition_id == s.partitions@[slot]
            &&& s.balanced ==> m.route == Route::Balanced
            &&& !s.balanced ==> m.route == (Route::Partition { partition_id: s.partitions@[slot] })
            &&& m.first_sequence == s.sequences@[slot]
            &&& 1 <= n <= s.quota - s.sent
            &&& forall|i: int|
                0 <= i < n ==> decoding((#[trigger] m.payloads@[i])@) == Some(
                    DiagnosticPayload {
                        timestamp_us,
                        producer_id: s.id as u32,
                        partition_id: m.partition_id,
                        sequence: (m.first_sequence + i) as u64,
                    },
                )
            &&& forall|i: int| 0 <= i < n ==> (#[trigger] m.payloads@[i])@.len() == s.payload_size
            &&& next.sequences@.len() == s.sequences@.len()
            &&& next.sequences@[slot] == m.first_sequence + n
            &&& forall|i: int|
                0 <= i < s.sequences@.len() && i != slot ==> next.sequences@[i] == s.sequences@[i]
            &&& next.sent == s.sent && next.sends == s.sends
        }),
{
    let slot = s.place();
    vstd::arithmetic::div_mod::lemma_mod_bound(s.sends as int, s.slots as int);
    law_batches_are_full_or_last(s.batch_size, (s.quota - s.sent) as nat);
    assert forall|i: int| 0 <= i < m.payloads@.len() implies decoding((#[trigger] m.payloads@[i])@)
        == Some(
        DiagnosticPayload {
            timestamp_us,
            producer_id: s.id as u32,
            partition_id: m.partition_id,
            sequence: (m.first_sequence + i) as u64,
        },
    ) && m.payloads@[i]@.len() == s.payload_size by {
        law_message_is_read_back(s.next_record(i, timestamp_us), s.payload_size as nat);
    }
}

/// A batch that is produced is noted in bytes as well, and nowhere where its partition is not
/// tracked.
pub proof fn law_batch_is_counted_in_bytes(
    trackers: Map<u32, PartitionTracker>,
    partition_id: u32,
    first: u64,
    count: nat,
    bytes: u64,
)
    ensures
        ({
            let after = with_batch_produced(trackers, partition_id, first, count, bytes);
            &&& !trackers.contains_key(partition_id) ==> after == trackers
            &&& trackers.contains_key(partition_id) ==> after.contains_key(partition_id)
                && after[partition_id].produced_bytes == (trackers[partition_id].produced_bytes
                + count * bytes) % 0x1_0000_0000_0000_0000
        }),
    decreases count,
{
    let m = 0x1_0000_0000_0000_0000int;
    if count > 0 {
        let last = (count - 1) as nat;
        law_batch_is_counted_in_bytes(trackers, partition_id, first, last, bytes);
        if trackers.contains_key(partition_id) {
            let was = trackers[partition_id].produced_bytes;
            assert(count * bytes == last * bytes + bytes) by (nonlinear_arith)
                requires
                    count == last + 1,
            ;
            vstd::arithmetic::div_mod::lemma_add_mod_noop_right(
                bytes as int,
                was + last * bytes,
                m,
            );
        }
    } else {
        assert(count * bytes == 0) by (nonlinear_arith)
            requires
                count == 0,
        ;
    }
}

/// What a poll does to a consumer: a poll with messages ends a row of polls in vain, adds its
/// messages, and lists its partition once; one without messages makes the row longer and changes
/// nothing else.
pub proof fn law_polls_advance_a_consumer(
    s: ConsumerSession,
    next: ConsumerSession,
    trackers: Map<u32, PartitionTracker>,
    next_trackers: Map<u32, PartitionTracker>,
    polled: Option<PolledBatch>,
    receive_us: u64,
    poll_duration_us: u64,
    diagnostics: bool,
    message_size: u64,
)
    requires
        s.wf(),
        polled matches Some(batch) ==> batch.messages@.len() <= u64::MAX,
        s.advanced(
            next,
            trackers,
            next_trackers,
            polled,
            receive_us,
            poll_duration_us,
            diagnostics,
            message_size,
        ),
    ensures
        next.id == s.id,
        polled matches Some(batch) ==> batch.messages@.len() > 0 ==> {
            &&& next.empty_polls == 0
            &&& next.messages == s.messages + batch.messages@.len()
            &&& recorded(next.histogram) == with_latencies(
                recorded(s.histogram),
                batch.messages@,
                receive_us,
            )
            &&& forall|p: u32|
                next.partitions_seen@.contains(p) <==> s.partitions_seen@.contains(p) || p
                    == batch.partition_id
            &&& s.partitions_seen@.is_prefix_of(next.partitions_seen@)
            &&& diagnostics ==> next_trackers == with_consumed(
                trackers,
                batch.messages@,
                message_size,
            )
            &&& diagnostics ==> next.poll_stats.poll_count == s.poll_stats.poll_count + 1
                && next.poll_stats.empty_poll_count == s.poll_stats.empty_poll_count
                && next.poll_stats.total_messages == s.poll_stats.total_messages
                + batch.messages@.len()
        },
        polled is None || polled->Some_0.messages@.len() == 0 ==> {
            &&& next.empty_polls == s.empty_polls + 1
            &&& next.messages == s.messages
            &&& next.histogram == s.histogram
            &&& next.partitions_seen == s.partitions_seen
            &&& next_trackers == trackers
            &&& diagnostics ==> next.poll_stats.poll_count == s.poll_stats.poll_count + 1
                && next.poll_stats.empty_poll_count == s.poll_stats.empty_poll_count + 1
        },
        diagnostics ==> recorded(next.poll_stats.poll_duration_hist) == recorded(
            s.poll_stats.poll_duration_hist,
        ).insert(bucket_floor(poll_duration_us as nat) as u64),
        !diagnostics ==> next_trackers == trackers && next.poll_stats == s.poll_stats,
{
    if let Some(batch) = polled {
        if batch.messages@.len() > 0 && !s.partitions_seen@.contains(batch.partition_id) {
            let (seen, now) = (s.partitions_seen@, next.partitions_seen@);
            assert(now == seen.push(batch.partition_id));
            assert(now[seen.len() as int] == batch.partition_id);
            assert forall|p: u32| now.contains(p) <==> seen.contains(p) || p
                == batch.partition_id by {
                if seen.contains(p) {
                    let i = choose|i: int| 0 <= i < seen.len() && seen[i] == p;
                    assert(now[i] == p);
                }
                if now.contains(p) && p != batch.partition_id {
                    let i = choose|i: int| 0 <= i < now.len() && now[i] == p;
                    assert(seen[i] == p);
                }
            }
        }
    }
}

/// A consumer pauses after a poll in vain and only then: for the interval, where there is one.
pub proof fn law_pauses_follow_polls_in_vain(polled: Option<PolledBatch>, poll_interval_us: u64)
    ensures
        pause_after(polled, poll_interval_us) == Pause::Nothing <==> polled is Some
            && polled->Some_0.messages@.len() > 0,
        polled is None || polled->Some_0.messages@.len() == 0 ==> pause_after(
            polled,
            poll_interval_us,
        ) == if poll_interval_us == 0 {
            Pause::Yield
        } else {
            Pause::Sleep { micros: poll_interval_us }
        },
{
}

/// A message that is read as a record of a tracked partition is noted there with its sequence
/// number and its size, and nowhere else.
pub proof fn law_known_message_is_noted(
    trackers: Map<u32, PartitionTracker>,
    m: Received,
    message_size: u64,
)
    requires
        decoding(m.payload@) is Some,
        trackers.contains_key(decoding(m.payload@)->Some_0.partition_id),
    ensures
        ({
            let record = decoding(m.payload@)->Some_0;
            let id = record.partition_id;
            let after = with_consumed(trackers, seq![m], message_size);
            let (was, is) = (trackers[id], after[id]);
            &&& after == trackers.insert(id, is)
            &&& is == after_consume(was, record.sequence, message_size)
            &&& is.consumed_count == (was.consumed_count + 1) % 0x1_0000_0000_0000_0000
            &&& is.consumed_bytes == (was.consumed_bytes + message_size) % 0x1_0000_0000_0000_0000
        }),
{
    let one = seq![m];
    assert(one.drop_last() =~= Seq::<Received>::empty());
    assert(with_consumed(trackers, one.drop_last(), message_size) == trackers);
    assert(one.last() == m);
}

/// A batch that is produced is noted like its messages one after the other: what is noted of a
/// batch is what is noted of its first messages, and then of the others.
pub proof fn law_batch_is_noted_in_parts(
    trackers: Map<u32, PartitionTracker>,
    partition_id: u32,
    first: u64,
    a: nat,
    b: nat,
    bytes: u64,
)
    requires
        first + a + b <= u64::MAX,
    ensures
        with_batch_produced(trackers, partition_id, first, a + b, bytes) == with_batch_produced(
            with_batch_produced(trackers, partition_id, first, a, bytes),
            partition_id,
            (first + a) as u64,
            b,
            bytes,
        ),
        with_batch_produced(trackers, partition_id, first, 0, bytes) == trackers,
        trackers.contains_key(partition_id) ==> with_batch_produced(
            trackers,
            partition_id,
            first,
            1,
            bytes,
        ) == trackers.insert(partition_id, after_produce(trackers[partition_id], first, bytes)),
    decreases b,
{
    reveal_with_fuel(with_batch_produced, 2);
    if b > 0 {
        law_batch_is_noted_in_parts(trackers, partition_id, first, a, (b - 1) as nat, bytes);
    }
}

/// From one send call that is accepted to the next: the place after this one has its turn, behind
/// the last place the first again. As many messages more are sent as the call carried, never more
/// than there were to send, and the numbers of its partition go on behind them.
pub proof fn law_accepted_calls_follow_each_other(
    s: ProducerSession,
    ready: ProducerSession,
    next: ProducerSession,
    m: Outgoing,
    timestamp_us: u64,
    latency_us: u64,
    diagnostics: bool,
    trackers: Map<u32, PartitionTracker>,
    next_trackers: Map<u32, PartitionTracker>,
)
    requires
        s.wf(),
        s.sent < s.quota,
        s.composed(ready, m, timestamp_us),
        ready.accepted(next, m, latency_us, diagnostics, trackers, next_trackers),
        s.sequences@[s.sends as int % s.slots as int] + m.payloads@.len() <= u64::MAX,
    ensures
        m.slot < s.slots,
        next.place() == if m.slot + 1 == s.slots {
            0
        } else {
            m.slot + 1
        },
        s.sent < next.sent <= s.quota,
        next.sent == s.sent + m.payloads@.len(),
        next.sends == s.sends + 1,
        next.quota == s.quota,
        next.sequences@[m.slot as int] == s.sequences@[m.slot as int] + m.payloads@.len(),
        recorded(next.histogram) == recorded(s.histogram).insert(
            bucket_floor(latency_us as nat) as u64,
        ),
        !diagnostics ==> next_trackers == trackers && next.send_stats == s.send_stats,
        diagnostics ==> next.send_stats.send_count == s.send_stats.send_count + 1
            && next.send_stats.total_messages == s.send_stats.total_messages + m.payloads@.len()
            && next.send_stats.total_bytes == s.send_stats.total_bytes + m.payloads@.len()
            * s.payload_size,
        diagnostics && trackers.contains_key(m.partition_id) ==> {
            let (was, is) = (trackers[m.partition_id], next_trackers[m.partition_id]);
            &&& next_trackers == trackers.insert(m.partition_id, is)
            &&& is.produced_count == (was.produced_count + m.payloads@.len())
                % 0x1_0000_0000_0000_0000
            &&& is.produced_bytes == (was.produced_bytes + m.payloads@.len() * s.payload_size)
                % 0x1_0000_0000_0000_0000
        },
{
    law_send_call_carries_its_records(s, ready, m, timestamp_us);
    let n = s.slots as int;
    let (q, r) = (s.sends as int / n, s.sends as int % n);
    vstd::arithmetic::div_mod::lemma_fundamental_div_mod(s.sends as int, n);
    vstd::arithmetic::div_mod::lemma_mod_bound(s.sends as int, n);
    assert(n * q == q * n) by (nonlinear_arith);
    if r + 1 == n {
        assert((q + 1) * n == q * n + n) by (nonlinear_arith);
        vstd::arithmetic::div_mod::lemma_fundamental_div_mod_converse(s.sends + 1, n, q + 1, 0);
    } else {
        vstd::arithmetic::div_mod::lemma_fundamental_div_mod_converse(s.sends + 1, n, q, r + 1);
    }
    if diagnostics && trackers.contains_key(m.partition_id) {
        law_batch_is_counted_by_message(
            trackers,
            m.partition_id,
            m.first_sequence,
            m.payloads@.len(),
            s.payload_size as u64,
        );
        law_batch_is_counted_in_bytes(
            trackers,
            m.partition_id,
            m.first_sequence,
            m.payloads@.len(),
            s.payload_size as u64,
        );
    }
}

/// A consumer goes on as long as the producers do, and after each message. Once they are done it
/// stops at its hundredth poll in vain in a row, and not before.
pub proof fn law_consumer_stops_after_a_hundred(
    s: ConsumerSession,
    next: ConsumerSession,
    batch: PolledBatch,
    receive_us: u64,
)
    requires
        s.wf(),
    ensures
        s.goes_on(false),
        s.took(next, batch, receive_us) ==> next.goes_on(true),
        s.missed(next) && s.empty_polls < 99 ==> next.goes_on(true),
        s.missed(next) && s.empty_polls >= 99 ==> !next.goes_on(true),
{
}

/// A list in ascending order has no entry behind a greater one.
pub proof fn law_ascending_lists_are_sorted(list: Seq<u32>, i: int, j: int)
    requires
        0 <= i < j < list.len(),
        ascending(list),
    ensures
        list[i] <= list[j],
{
}

/// There is a delay if and only if there is a target and less time has passed than the messages
/// sent so far may take, and it is what is left of that time.
pub proof fn law_delay_is_the_time_left(total_sent: u64, throughput: u64, elapsed_secs: Binary64)
    ensures
        ({
            let delay = pacing_delay(total_sent, throughput, elapsed_secs);
            let due = quotient(of_integer(total_sent as nat), of_integer(throughput as nat));
            &&& throughput == 0 || elapsed_secs.nan() ==> delay is None
            &&& throughput > 0 && !elapsed_secs.nan() ==> !due.nan() && (delay is Some
                <==> elapsed_secs.exact() < due.exact())
            &&& delay is Some ==> delay->Some_0 == difference(due, elapsed_secs)
        }),
{
    if throughput > 0 {
        if total_sent == 0 {
            lemma_nothing_sent(throughput);
        } else {
            law_quotient_of_integers_is_close(total_sent as nat, throughput as nat);
        }
    }
}

} // verus!
