//! What each consumer and each producer saw of its own calls.
use vstd::prelude::*;
use vstd::multiset::Multiset;
use vstd::arithmetic::power2::lemma_pow2_pos;
use crate::binary64::{
    law_mean_is_at_least_one, law_share_is_at_most_one, law_small_integers_are_exact, less,
    of_integer, quotient, Binary64,
};
use crate::clock::{instant_now, micros_since};
use crate::histogram::{
    bucket_floor, count_value, new_histogram, recorded, standard, SampleHistogram,
};
use crate::rounding::units;
use crate::tracker::{average, mean_of, per_second, rate};

verus! {

/// The values of a histogram at the quantiles that are reported.
#[derive(Clone, Copy, Debug, PartialEq, Eq, Structural)]
pub struct Quantiles {
    pub p50: u64,
    pub p99: u64,
    pub p999: u64,
}

/// Consumer poll behavior tracking (thread-local, merged at end).
pub struct ConsumerPollStats {
    pub consumer_id: usize,
    pub poll_count: u64,
    pub empty_poll_count: u64,
    pub total_messages: u64,
    pub poll_duration_hist: SampleHistogram,
    pub messages_per_poll_hist: SampleHistogram,
    pub time_between_polls_hist: SampleHistogram,
    pub last_poll_end: Option<std::time::Instant>,
}

/// The figures of one consumer's polls.
#[derive(Clone, Copy, Debug, PartialEq, Eq, Structural)]
pub struct ConsumerPollSnapshot {
    pub consumer_id: usize,
    pub polls_per_sec: Binary64,
    pub empty_polls_per_sec: Binary64,
    pub empty_poll_ratio: Binary64,
    pub poll_duration_p50_us: u64,
    pub poll_duration_p99_us: u64,
    pub poll_duration_p999_us: u64,
    pub messages_per_poll_avg: Binary64,
    pub messages_per_poll_p50: u64,
    pub messages_per_poll_p99: u64,
    pub messages_per_poll_p999: u64,
    pub time_between_polls_p50_us: u64,
    pub time_between_polls_p99_us: u64,
    pub time_between_polls_p999_us: u64,
}

/// The figures of a consumer after `elapsed_secs` seconds, given what its histograms read.
pub open spec fn poll_snapshot_of(
    s: ConsumerPollStats,
    elapsed_secs: Binary64,
    poll_duration: Quantiles,
    messages_per_poll: Quantiles,
    time_between_polls: Quantiles,
) -> ConsumerPollSnapshot {
    ConsumerPollSnapshot {
        consumer_id: s.consumer_id,
        polls_per_sec: rate(s.poll_count, elapsed_secs),
        empty_polls_per_sec: rate(s.empty_poll_count, elapsed_secs),
        empty_poll_ratio: average(s.empty_poll_count, s.poll_count),
        poll_duration_p50_us: poll_duration.p50,
        poll_duration_p99_us: poll_duration.p99,
        poll_duration_p999_us: poll_duration.p999,
        messages_per_poll_avg: if s.poll_count > s.empty_poll_count {
            average(s.total_messages, (s.poll_count - s.empty_poll_count) as u64)
        } else {
            Binary64 { bits: 0 }
        },
        messages_per_poll_p50: messages_per_poll.p50,
        messages_per_poll_p99: messages_per_poll.p99,
        messages_per_poll_p999: messages_per_poll.p999,
        time_between_polls_p50_us: time_between_polls.p50,
        time_between_polls_p99_us: time_between_polls.p99,
        time_between_polls_p999_us: time_between_polls.p999,
    }
}

impl ConsumerPollStats {
    /// Whether a poll has been recorded.
    pub open spec fn polled_before(&self) -> bool {
        self.last_poll_end is Some
    }

    /// Every poll has one duration, every poll that brought something one batch size and at least
    /// one message, and every poll but the first one waiting time.
    pub open spec fn wf(&self) -> bool {
        &&& standard(self.poll_duration_hist)
        &&& standard(self.messages_per_poll_hist)
        &&& standard(self.time_between_polls_hist)
        &&& self.empty_poll_count <= self.poll_count
        &&& self.poll_count - self.empty_poll_count <= self.total_messages
        &&& recorded(self.poll_duration_hist).len() == self.poll_count
        &&& recorded(self.messages_per_poll_hist).len() == self.poll_count - self.empty_poll_count
        &&& recorded(self.time_between_polls_hist).len() == if self.poll_count > 0 {
            self.poll_count - 1
        } else {
            0
        }
        &&& self.polled_before() == (self.poll_count > 0)
    }

    /// What a poll that took `duration_us`, brought `message_count` messages and is noted
    /// `since_last_us` after the end of the last noted poll does to the figures.
    pub open spec fn polled(
        &self,
        next: ConsumerPollStats,
        duration_us: u64,
        message_count: u64,
        since_last_us: u64,
    ) -> bool {
        &&& next.consumer_id == self.consumer_id
        &&& next.poll_count == self.poll_count + 1
        &&& next.empty_poll_count == self.empty_poll_count + if message_count == 0 {
            1int
        } else {
            0
        }
        &&& next.total_messages == self.total_messages + message_count
        &&& recorded(next.poll_duration_hist) == recorded(self.poll_duration_hist).insert(
            bucket_floor(duration_us as nat) as u64,
        )
        &&& recorded(next.messages_per_poll_hist) == if message_count == 0 {
            recorded(self.messages_per_poll_hist)
        } else {
            recorded(self.messages_per_poll_hist).insert(bucket_floor(message_count as nat) as u64)
        }
        &&& recorded(next.time_between_polls_hist) == if self.polled_before() {
            recorded(self.time_between_polls_hist).insert(
                bucket_floor(since_last_us as nat) as u64,
            )
        } else {
            recorded(self.time_between_polls_hist)
        }
    }

    /// The figures of a consumer that has not polled yet.
    pub fn new(consumer_id: usize) -> (s: ConsumerPollStats)
        ensures
            s.wf(),
            s.consumer_id == consumer_id,
            s.poll_count == 0,
            s.empty_poll_count == 0,
            s.total_messages == 0,
            recorded(s.poll_duration_hist) == Multiset::<u64>::empty(),
            recorded(s.messages_per_poll_hist) == Multiset::<u64>::empty(),
            recorded(s.time_between_polls_hist) == Multiset::<u64>::empty(),
    {
        ConsumerPollStats {
            consumer_id,
            poll_count: 0,
            empty_poll_count: 0,
            total_messages: 0,
            poll_duration_hist: new_histogram(),
            messages_per_poll_hist: new_histogram(),
            time_between_polls_hist: new_histogram(),
            last_poll_end: None,
        }
    }

    /// Takes note of a poll that has just ended.
    pub fn record_poll(&mut self, duration_us: u64, message_count: u64)
        requires
            old(self).wf(),
            old(self).poll_count < u64::MAX,
            old(self).total_messages + message_count <= u64::MAX,
        ensures
            final(self).wf(),
            exists|since_last_us: u64| #[trigger]
                old(self).polled(*final(self), duration_us, message_count, since_last_us),
    {
        let since_last_us: u64 = match &self.last_poll_end {
            Some(end) => micros_since(end),
            None => 0,
        };
        self.record_poll_after(duration_us, message_count, since_last_us, instant_now());
        assert(old(self).polled(*self, duration_us, message_count, since_last_us));
    }

    /// Takes note of a poll, `since_last_us` after the end of the last noted poll. The end of this
    /// one is `end`.
    pub fn record_poll_after(
        &mut self,
        duration_us: u64,
        message_count: u64,
        since_last_us: u64,
        end: std::time::Instant,
    )
        requires
            old(self).wf(),
            old(self).poll_count < u64::MAX,
            old(self).total_messages + message_count <= u64::MAX,
        ensures
            final(self).wf(),
            old(self).polled(*final(self), duration_us, message_count, since_last_us),
            final(self).last_poll_end == Some(end),
    {
        if self.last_poll_end.is_some() {
            count_value(&mut self.time_between_polls_hist, since_last_us);
        }
        self.poll_count = self.poll_count + 1;
        count_value(&mut self.poll_duration_hist, duration_us);
        if message_count == 0 {
            self.empty_poll_count = self.empty_poll_count + 1;
        } else {
            count_value(&mut self.messages_per_poll_hist, message_count);
            self.total_messages = self.total_messages + message_count;
        }
        self.last_poll_end = Some(end);
    }

    /// The figures after `elapsed_secs` seconds, given what the three histograms read.
    pub fn snapshot(
        &self,
        elapsed_secs: Binary64,
        poll_duration: Quantiles,
        messages_per_poll: Quantiles,
        time_between_polls: Quantiles,
    ) -> (r: ConsumerPollSnapshot)
        ensures
            r == poll_snapshot_of(
                *self,
                elapsed_secs,
                poll_duration,
                messages_per_poll,
                time_between_polls,
            ),
    {
        ConsumerPollSnapshot {
            consumer_id: self.consumer_id,
            polls_per_sec: per_second(self.poll_count, elapsed_secs),
            empty_polls_per_sec: per_second(self.empty_poll_count, elapsed_secs),
            empty_poll_ratio: mean_of(self.empty_poll_count, self.poll_count),
            poll_duration_p50_us: poll_duration.p50,
            poll_duration_p99_us: poll_duration.p99,
            poll_duration_p999_us: poll_duration.p999,
            messages_per_poll_avg: if self.poll_count > self.empty_poll_count {
                mean_of(self.total_messages, self.poll_count - self.empty_poll_count)
            } else {
                Binary64 { bits: 0 }
            },
            messages_per_poll_p50: messages_per_poll.p50,
            messages_per_poll_p99: messages_per_poll.p99,
            messages_per_poll_p999: messages_per_poll.p999,
            time_between_polls_p50_us: time_between_polls.p50,
            time_between_polls_p99_us: time_between_polls.p99,
            time_between_polls_p999_us: time_between_polls.p999,
        }
    }
}

/// Producer send behavior tracking (thread-local).
pub struct ProducerSendStats {
    pub producer_id: usize,
    pub send_count: u64,
    pub total_messages: u64,
    pub total_bytes: u64,
    pub send_duration_hist: SampleHistogram,
    pub messages_per_send_hist: SampleHistogram,
}

/// The figures of one producer's sends.
#[derive(Clone, Copy, Debug, PartialEq, Eq, Structural)]
pub struct ProducerSendSnapshot {
    pub producer_id: usize,
    pub sends_per_sec: Binary64,
    pub send_duration_p50_us: u64,
    pub send_duration_p99_us: u64,
    pub send_duration_p999_us: u64,
    pub messages_per_send_avg: Binary64,
    pub messages_per_send_p50: u64,
    pub bytes_per_send_avg: Binary64,
}

/// The figures of a producer after `elapsed_secs` seconds, given what its histograms read.
pub open spec fn send_snapshot_of(
    s: ProducerSendStats,
    elapsed_secs: Binary64,
    send_duration: Quantiles,
    messages_per_send_p50: u64,
) -> ProducerSendSnapshot {
    ProducerSendSnapshot {
        producer_id: s.producer_id,
        sends_per_sec: rate(s.send_count, elapsed_secs),
        send_duration_p50_us: send_duration.p50,
        send_duration_p99_us: send_duration.p99,
        send_duration_p999_us: send_duration.p999,
        messages_per_send_avg: average(s.total_messages, s.send_count),
        messages_per_send_p50,
        bytes_per_send_avg: average(s.total_bytes, s.send_count),
    }
}

impl ProducerSendStats {
    /// Every send has one duration and one batch size.
    pub open spec fn wf(&self) -> bool {
        &&& standard(self.send_duration_hist)
        &&& standard(self.messages_per_send_hist)
        &&& recorded(self.send_duration_hist).len() == self.send_count
        &&& recorded(self.messages_per_send_hist).len() == self.send_count
    }

    /// The figures of a producer that has not sent yet.
    pub fn new(producer_id: usize) -> (s: ProducerSendStats)
        ensures
            s.wf(),
            s.producer_id == producer_id,
            s.send_count == 0,
            s.total_messages == 0,
            s.total_bytes == 0,
            recorded(s.send_duration_hist) == Multiset::<u64>::empty(),
            recorded(s.messages_per_send_hist) == Multiset::<u64>::empty(),
    {
        ProducerSendStats {
            producer_id,
            send_count: 0,
            total_messages: 0,
            total_bytes: 0,
            send_duration_hist: new_histogram(),
            messages_per_send_hist: new_histogram(),
        }
    }

    /// Takes note of a send.
    pub fn record_send(&mut self, duration_us: u64, message_count: u64, bytes: u64)
        requires
            old(self).wf(),
            old(self).send_count < u64::MAX,
            old(self).total_messages + message_count <= u64::MAX,
            old(self).total_bytes + bytes <= u64::MAX,
        ensures
            final(self).wf(),
            final(self).producer_id == old(self).producer_id,
            final(self).send_count == old(self).send_count + 1,
            final(self).total_messages == old(self).total_messages + message_count,
            final(self).total_bytes == old(self).total_bytes + bytes,
            recorded(final(self).send_duration_hist) == recorded(
                old(self).send_duration_hist,
            ).insert(bucket_floor(duration_us as nat) as u64),
            recorded(final(self).messages_per_send_hist) == recorded(
                old(self).messages_per_send_hist,
            ).insert(bucket_floor(message_count as nat) as u64),
    {
        self.send_count = self.send_count + 1;
        self.total_messages = self.total_messages + message_count;
        self.total_bytes = self.total_bytes + bytes;
        count_value(&mut self.send_duration_hist, duration_us);
        count_value(&mut self.messages_per_send_hist, message_count);
    }

    /// The figures after `elapsed_secs` seconds, given what the two histograms read.
    pub fn snapshot(
        &self,
        elapsed_secs: Binary64,
        send_duration: Quantiles,
        messages_per_send_p50: u64,
    ) -> (r: ProducerSendSnapshot)
        ensures
            r == send_snapshot_of(*self, elapsed_secs, send_duration, messages_per_send_p50),
    {
        ProducerSendSnapshot {
            producer_id: self.producer_id,
            sends_per_sec: per_second(self.send_count, elapsed_secs),
            send_duration_p50_us: send_duration.p50,
            send_duration_p99_us: send_duration.p99,
            send_duration_p999_us: send_duration.p999,
            messages_per_send_avg: mean_of(self.total_messages, self.send_count),
            messages_per_send_p50,
            bytes_per_send_avg: mean_of(self.total_bytes, self.send_count),
        }
    }
}

/// The share of empty polls is never above one.
pub proof fn law_empty_polls_are_a_share(
    s: ConsumerPollStats,
    elapsed_secs: Binary64,
    poll_duration: Quantiles,
    messages_per_poll: Quantiles,
    time_between_polls: Quantiles,
)
    requires
        s.wf(),
    ensures
        !less(
            of_integer(1),
            poll_snapshot_of(
                s,
                elapsed_secs,
                poll_duration,
                messages_per_poll,
                time_between_polls,
            ).empty_poll_ratio,
        ),
{
    if s.poll_count > 0 {
        law_share_is_at_most_one(s.empty_poll_count as nat, s.poll_count as nat);
    } else {
        law_small_integers_are_exact(1);
        lemma_pow2_pos(1074);
    }
}

/// A poll that brought something brought at least one message on average.
pub proof fn law_polls_bring_at_least_one_message(
    s: ConsumerPollStats,
    elapsed_secs: Binary64,
    poll_duration: Quantiles,
    messages_per_poll: Quantiles,
    time_between_polls: Quantiles,
)
    requires
        s.wf(),
        s.empty_poll_count < s.poll_count,
    ensures
        ({
            let mean = poll_snapshot_of(
                s,
                elapsed_secs,
                poll_duration,
                messages_per_poll,
                time_between_polls,
            ).messages_per_poll_avg;
            !mean.nan() && !less(mean, of_integer(1))
        }),
{
    law_mean_is_at_least_one(
        s.total_messages as nat,
        (s.poll_count - s.empty_poll_count) as nat,
    );
}

/// A snapshot of a consumer gives its figures: polls by the second, the share of the empty ones,
/// the messages of the others on average, and what each histogram reads, each in its place.
pub proof fn law_poll_snapshot_gives_the_figures(
    s: ConsumerPollStats,
    elapsed_secs: Binary64,
    durations: Quantiles,
    messages: Quantiles,
    gaps: Quantiles,
)
    requires
        s.wf(),
    ensures
        ({
            let r = poll_snapshot_of(s, elapsed_secs, durations, messages, gaps);
            let zero = Binary64 { bits: 0 };
            let timed = !elapsed_secs.nan() && elapsed_secs.exact() > 0;
            let polls = of_integer(s.poll_count as nat);
            let empty = of_integer(s.empty_poll_count as nat);
            let full = s.poll_count - s.empty_poll_count;
            &&& r.consumer_id == s.consumer_id
            &&& timed ==> r.polls_per_sec == quotient(polls, elapsed_secs)
            &&& timed ==> r.empty_polls_per_sec == quotient(empty, elapsed_secs)
            &&& !timed ==> r.polls_per_sec == zero && r.empty_polls_per_sec == zero
            &&& s.poll_count > 0 ==> r.empty_poll_ratio == quotient(empty, polls)
            &&& s.poll_count == 0 ==> r.empty_poll_ratio == zero
            &&& full > 0 ==> r.messages_per_poll_avg == quotient(
                of_integer(s.total_messages as nat),
                of_integer(full as nat),
            )
            &&& full == 0 ==> r.messages_per_poll_avg == zero
            &&& r.poll_duration_p50_us == durations.p50
            &&& r.poll_duration_p99_us == durations.p99
            &&& r.poll_duration_p999_us == durations.p999
            &&& r.messages_per_poll_p50 == messages.p50
            &&& r.messages_per_poll_p99 == messages.p99
            &&& r.messages_per_poll_p999 == messages.p999
            &&& r.time_between_polls_p50_us == gaps.p50
            &&& r.time_between_polls_p99_us == gaps.p99
            &&& r.time_between_polls_p999_us == gaps.p999
        }),
{
    assert(units(0) == 0);
}

/// A snapshot of a producer gives its figures: sends by the second, messages and bytes by the
/// send, and what the histograms read, each in its place.
pub proof fn law_send_snapshot_gives_the_figures(
    s: ProducerSendStats,
    elapsed_secs: Binary64,
    durations: Quantiles,
    messages_p50: u64,
)
    ensures
        ({
            let r = send_snapshot_of(s, elapsed_secs, durations, messages_p50);
            let zero = Binary64 { bits: 0 };
            let timed = !elapsed_secs.nan() && elapsed_secs.exact() > 0;
            let sends = of_integer(s.send_count as nat);
            &&& r.producer_id == s.producer_id
            &&& timed ==> r.sends_per_sec == quotient(sends, elapsed_secs)
            &&& !timed ==> r.sends_per_sec == zero
            &&& s.send_count > 0 ==> r.messages_per_send_avg == quotient(
                of_integer(s.total_messages as nat),
                sends,
            )
            &&& s.send_count > 0 ==> r.bytes_per_send_avg == quotient(
                of_integer(s.total_bytes as nat),
                sends,
            )
            &&& s.send_count == 0 ==> r.messages_per_send_avg == zero && r.bytes_per_send_avg
                == zero
            &&& r.send_duration_p50_us == durations.p50
            &&& r.send_duration_p99_us == durations.p99
            &&& r.send_duration_p999_us == durations.p999
            &&& r.messages_per_send_p50 == messages_p50
        }),
{
    assert(units(0) == 0);
}

/// Two polls in a row: both are counted, with the messages of both, and each is an empty one where
/// it brought none. Both durations are kept, and the time between the two.
pub proof fn law_two_polls_are_noted(
    s: ConsumerPollStats,
    between: ConsumerPollStats,
    next: ConsumerPollStats,
    durations: (u64, u64),
    messages: (u64, u64),
    gaps: (u64, u64),
)
    requires
        s.wf(),
        between.wf(),
        s.polled(between, durations.0, messages.0, gaps.0),
        between.polled(next, durations.1, messages.1, gaps.1),
    ensures
        next.consumer_id == s.consumer_id,
        next.poll_count == s.poll_count + 2,
        next.total_messages == s.total_messages + messages.0 + messages.1,
        messages.0 == 0 && messages.1 == 0 ==> next.empty_poll_count == s.empty_poll_count + 2,
        messages.0 > 0 && messages.1 > 0 ==> next.empty_poll_count == s.empty_poll_count,
        (messages.0 > 0) != (messages.1 > 0) ==> next.empty_poll_count == s.empty_poll_count + 1,
        recorded(next.poll_duration_hist) == recorded(s.poll_duration_hist).insert(
            bucket_floor(durations.0 as nat) as u64,
        ).insert(bucket_floor(durations.1 as nat) as u64),
        messages.1 == 0 ==> recorded(next.messages_per_poll_hist) == recorded(
            between.messages_per_poll_hist,
        ),
        messages.1 > 0 ==> recorded(next.messages_per_poll_hist) == recorded(
            between.messages_per_poll_hist,
        ).insert(bucket_floor(messages.1 as nat) as u64),
        recorded(next.time_between_polls_hist) == recorded(
            between.time_between_polls_hist,
        ).insert(bucket_floor(gaps.1 as nat) as u64),
        s.poll_count == 0 ==> recorded(between.time_between_polls_hist) == recorded(
            s.time_between_polls_hist,
        ),
{
}

} // verus!
