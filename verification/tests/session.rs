use minimal_bench::binary64::Binary64;
use minimal_bench::histogram::{bucket_counts, counted, highest_counted};
use minimal_bench::payload::DiagnosticPayload;
use minimal_bench::session::{
    message_latency, rate_limit_delay, ConsumerSession, Pause, PolledBatch, ProducerSession,
    Received, Route,
};
use minimal_bench::tracker::PartitionTrackers;

fn number(x: f64) -> Binary64 {
    Binary64 { bits: x.to_bits() }
}

fn message(stamp: u64, partition: u32, seq: u64) -> Received {
    Received {
        origin_timestamp: 0,
        payload: DiagnosticPayload::stamped(stamp, 1, partition, seq).to_bytes().to_vec(),
    }
}

#[test]
fn producer_waits_for_its_schedule() {
    assert_eq!(rate_limit_delay(100, 50, number(1.5)), Some(number(0.5)));
    assert_eq!(rate_limit_delay(100, 50, number(2.0)), None);
    assert_eq!(rate_limit_delay(100, 50, number(3.0)), None);
    assert_eq!(rate_limit_delay(100, 0, number(0.0)), None);
    assert_eq!(rate_limit_delay(0, 50, number(0.0)), None);
    assert_eq!(rate_limit_delay(1, 3, number(0.1)), Some(number(1.0 / 3.0 - 0.1)));
}

#[test]
fn producer_takes_turns_between_partitions() {
    let mut s = ProducerSession::new(2, vec![4, 5, 6], false, 7, 1, 250);
    let mut trackers = PartitionTrackers::new(8);
    assert_eq!(s.slots, 3);
    let mut places = Vec::new();
    let mut t = 1000;
    while s.unfinished() {
        let m = s.compose_at(t);
        assert_eq!(m.route, Route::Partition { partition_id: m.partition_id });
        assert_eq!(m.payloads.len(), 1);
        assert_eq!(m.payloads[0].len(), 250);
        assert_eq!(
            DiagnosticPayload::from_bytes(&m.payloads[0]),
            Some(DiagnosticPayload::stamped(t, 2, m.partition_id, m.first_sequence))
        );
        assert!(m.payloads[0][24..].iter().all(|b| *b == 0));
        places.push((m.slot, m.partition_id, m.first_sequence));
        s.delivered(&m, 10, true, &mut trackers);
        t += 1;
    }
    assert_eq!(
        places,
        vec![(0, 4, 0), (1, 5, 0), (2, 6, 0), (0, 4, 1), (1, 5, 1), (2, 6, 1), (0, 4, 2)]
    );
    assert_eq!((s.sent, s.sends), (7, 7));
    assert_eq!((s.send_stats.send_count, s.send_stats.total_bytes), (7, 1750));
    assert_eq!(counted(&s.histogram), 7);
    assert_eq!(trackers.get(4).unwrap().produced_seq, 2);
    assert_eq!(trackers.get(4).unwrap().produced_count, 3);
    assert_eq!(trackers.get(4).unwrap().produced_bytes, 750);
    assert_eq!(trackers.get(7).unwrap().produced_count, 0);
}

#[test]
fn producer_sends_batches() {
    let mut s = ProducerSession::new(1, vec![8, 9], false, 11, 4, 100);
    let mut trackers = PartitionTrackers::new(10);
    let mut calls = Vec::new();
    while s.unfinished() {
        assert_eq!(s.current_length(), std::cmp::min(4, 11 - s.sent));
        let m = s.compose_at(77);
        for (i, payload) in m.payloads.iter().enumerate() {
            assert_eq!(payload.len(), 100);
            assert_eq!(
                DiagnosticPayload::from_bytes(payload),
                Some(DiagnosticPayload::stamped(77, 1, m.partition_id, m.first_sequence + i as u64))
            );
        }
        calls.push((m.slot, m.partition_id, m.first_sequence, m.payloads.len()));
        s.delivered(&m, 10, true, &mut trackers);
    }
    // Places take turns call by call, and the last call takes what is left.
    assert_eq!(calls, vec![(0, 8, 0, 4), (1, 9, 0, 4), (0, 8, 4, 3)]);
    assert_eq!((s.sent, s.sends, s.current_length()), (11, 3, 0));
    assert_eq!(counted(&s.histogram), 3);
    let stats = &s.send_stats;
    assert_eq!((stats.send_count, stats.total_messages, stats.total_bytes), (3, 11, 1100));
    assert_eq!(bucket_counts(&stats.messages_per_send_hist), vec![(3, 1), (4, 2)]);
    let t = trackers.get(8).unwrap();
    assert_eq!((t.produced_seq, t.produced_count, t.produced_bytes), (6, 7, 700));
    assert_eq!(trackers.get(9).unwrap().produced_count, 4);
}

#[test]
fn batch_of_zero_counts_as_one() {
    let mut s = ProducerSession::new(0, vec![0], false, 2, 0, 24);
    assert_eq!(s.current_length(), 1);
    assert_eq!(s.compose_at(1).payloads.len(), 1);
}

#[test]
fn failed_sends_use_up_sequence_numbers_only() {
    let mut s = ProducerSession::new(0, vec![0], false, 1, 1, 100);
    let mut trackers = PartitionTrackers::new(1);
    assert_eq!(s.compose_at(1).first_sequence, 0);
    assert_eq!(s.compose_at(2).first_sequence, 1);
    assert_eq!((s.sent, s.sends, s.unfinished()), (0, 0, true));
    let m = s.compose_at(3);
    s.delivered(&m, 5, true, &mut trackers);
    assert_eq!(m.first_sequence, 2);
    assert_eq!((s.sent, s.sends, s.unfinished()), (1, 1, false));
    assert_eq!(trackers.get(0).unwrap().produced_seq, 2);
    assert_eq!(trackers.get(0).unwrap().produced_count, 1);
}

#[test]
fn server_side_routing_has_one_place() {
    let mut s = ProducerSession::new(0, vec![3, 4], true, 3, 1, 0);
    assert_eq!(s.slots, 1);
    for n in 0..3 {
        let m = s.compose_at(0);
        assert_eq!((m.route, m.slot, m.partition_id), (Route::Balanced, 0, 3));
        assert_eq!(m.first_sequence, n);
        // Messages are never shorter than their record.
        assert_eq!(m.payloads[0].len(), 24);
        s.delivered(&m, 1, false, &mut PartitionTrackers::new(5));
    }
    assert!(!s.unfinished());
}

#[test]
fn producer_keeps_no_figures_without_diagnostics() {
    let mut s = ProducerSession::new(0, vec![0], false, 2, 2, 30);
    let mut trackers = PartitionTrackers::new(1);
    let m = s.compose();
    s.delivered(&m, 123, false, &mut trackers);
    assert_eq!(s.sent, 2);
    assert_eq!(s.send_stats.send_count, 0);
    assert_eq!(trackers.get(0).unwrap().produced_count, 0);
    assert_eq!(highest_counted(&s.histogram), 123);
}

#[test]
fn composed_messages_carry_the_present_time() {
    let mut s = ProducerSession::new(0, vec![0], false, 1, 1, 24);
    let before = DiagnosticPayload::new(0, 0, 0).timestamp_us;
    let m = s.compose();
    let after = DiagnosticPayload::new(0, 0, 0).timestamp_us;
    let stamp = DiagnosticPayload::from_bytes(&m.payloads[0]).unwrap().timestamp_us;
    assert!(before <= stamp && stamp <= after);
}

#[test]
fn producer_without_messages_is_done() {
    let s = ProducerSession::new(0, vec![], false, 0, 1, 24);
    assert!(!s.unfinished());
    assert_eq!(s.current_length(), 0);
}

#[test]
fn latency_comes_from_the_server_or_the_payload() {
    let mut m = message(900, 0, 0);
    assert_eq!(message_latency(&m, 1000), Some(100));
    m.origin_timestamp = 950;
    assert_eq!(message_latency(&m, 1000), Some(50));
    assert_eq!(message_latency(&m, 940), Some(0));
    let short = Received { origin_timestamp: 0, payload: vec![1; 7] };
    assert_eq!(message_latency(&short, 1000), None);
    let bare = Received { origin_timestamp: 0, payload: vec![10, 0, 0, 0, 0, 0, 0, 0] };
    assert_eq!(message_latency(&bare, 1000), Some(990));
}

#[test]
fn consumer_takes_note_of_a_batch() {
    let mut s = ConsumerSession::new(1);
    let mut trackers = PartitionTrackers::new(4);
    trackers.record_produce(2, 9, 250);
    let batch = PolledBatch {
        partition_id: 2,
        messages: vec![
            message(100, 2, 0),
            message(150, 2, 1),
            message(150, 77, 1),
            Received { origin_timestamp: 0, payload: vec![0; 3] },
        ],
    };
    s.take_batch_at(&batch, 400, 33, true, 250, &mut trackers);
    assert_eq!((s.messages, s.empty_polls), (4, 0));
    assert_eq!(counted(&s.histogram), 3);
    assert_eq!(highest_counted(&s.histogram), 300);
    assert_eq!(s.partitions_seen, vec![2]);
    assert_eq!((s.poll_stats.poll_count, s.poll_stats.total_messages), (1, 4));
    let t = trackers.get(2).unwrap();
    assert_eq!((t.consumed_seq, t.consumed_count, t.consumed_bytes), (1, 2, 500));
    assert_eq!((t.max_lag, t.lag_sum, t.lag_samples), (9, 17, 2));
    assert_eq!(trackers.get(0).unwrap().consumed_count, 0);
}

#[test]
fn consumer_lists_each_partition_once() {
    let mut s = ConsumerSession::new(0);
    let mut trackers = PartitionTrackers::new(1);
    for p in [7, 3, 7, 5, 3, 9, 0] {
        let batch = PolledBatch { partition_id: p, messages: vec![message(1, p, 0)] };
        s.take_batch_at(&batch, 2, 1, false, 24, &mut trackers);
    }
    assert_eq!(s.partitions_seen, vec![7, 3, 5, 9, 0]);
    assert_eq!(s.sorted_partitions(), vec![0, 3, 5, 7, 9]);
    assert_eq!(s.messages, 7);
    assert_eq!(s.poll_stats.poll_count, 0);
    assert_eq!(trackers.get(0).unwrap().consumed_count, 0);
}

#[test]
fn consumer_pauses_after_a_poll_in_vain() {
    let mut s = ConsumerSession::new(0);
    let mut trackers = PartitionTrackers::new(1);
    let none = PolledBatch { partition_id: 0, messages: vec![] };
    assert_eq!(s.on_poll(&Some(none), 5, true, 24, 0, &mut trackers), Pause::Yield);
    assert_eq!(s.on_poll(&None, 5, true, 24, 50, &mut trackers), Pause::Sleep { micros: 50 });
    assert_eq!((s.empty_polls, s.messages), (2, 0));
    assert_eq!((s.poll_stats.poll_count, s.poll_stats.empty_poll_count), (2, 2));
    let some = PolledBatch { partition_id: 0, messages: vec![message(1, 0, 0)] };
    assert_eq!(s.on_poll(&Some(some), 5, true, 24, 50, &mut trackers), Pause::Nothing);
    assert_eq!((s.empty_polls, s.messages), (0, 1));
    assert_eq!(trackers.get(0).unwrap().consumed_count, 1);
}

#[test]
fn received_time_is_the_present() {
    let mut s = ConsumerSession::new(0);
    let mut trackers = PartitionTrackers::new(1);
    let sent = DiagnosticPayload::new(0, 0, 0).timestamp_us - 5_000_000;
    let batch = PolledBatch { partition_id: 0, messages: vec![message(sent, 0, 0)] };
    assert_eq!(s.on_poll(&Some(batch), 1, false, 24, 0, &mut trackers), Pause::Nothing);
    assert!(highest_counted(&s.histogram) >= 4_990_000);
    assert!(highest_counted(&s.histogram) <= 15_000_000);
}

#[test]
fn consumer_stops_after_enough_polls_in_vain() {
    let mut s = ConsumerSession::new(0);
    for _ in 0..99 {
        s.miss(1, false, 0);
    }
    assert!(s.keeps_polling(true));
    s.miss(1, false, 0);
    assert!(!s.keeps_polling(true));
    assert!(s.keeps_polling(false));
}

#[test]
fn delivered_messages_leave_no_lag() {
    let mut p = ProducerSession::new(0, vec![1], false, 3, 2, 64);
    let mut c = ConsumerSession::new(0);
    let mut trackers = PartitionTrackers::new(2);
    let mut messages = Vec::new();
    while p.unfinished() {
        let m = p.compose_at(10);
        p.delivered(&m, 1, true, &mut trackers);
        for payload in m.payloads {
            messages.push(Received { origin_timestamp: 0, payload });
        }
    }
    assert_eq!(trackers.get(1).unwrap().current_lag(), 2);
    let batch = PolledBatch { partition_id: 1, messages };
    c.take_batch_at(&batch, 30, 1, true, 64, &mut trackers);
    let t = trackers.get(1).unwrap();
    assert_eq!((t.current_lag(), t.produced_count, t.consumed_count), (0, 3, 3));
    assert_eq!((t.produced_bytes, t.consumed_bytes), (192, 192));
    assert_eq!(highest_counted(&c.histogram), 20);
}

#[test]
fn time_of_receipt_is_taken_as_given() {
    let mut s = ConsumerSession::new(0);
    let mut trackers = PartitionTrackers::new(1);
    let batch = PolledBatch { partition_id: 0, messages: vec![message(100, 0, 0)] };
    let pause = s.on_poll_at(&Some(batch), 350, 1, true, 24, 9, &mut trackers);
    assert_eq!(pause, Pause::Nothing);
    assert_eq!(highest_counted(&s.histogram), 250);
    assert_eq!(trackers.get(0).unwrap().consumed_count, 1);
    assert_eq!(s.on_poll_at(&None, 400, 1, true, 24, 9, &mut trackers), Pause::Sleep { micros: 9 });
    assert_eq!(s.on_poll_at(&None, 500, 1, true, 24, 0, &mut trackers), Pause::Yield);
    assert_eq!((s.empty_polls, s.messages, s.poll_stats.poll_count), (2, 1, 3));
}
