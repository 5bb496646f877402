use channel_patterns::actor::{Actor, ActorAction, ActorEvent};
use channel_patterns::actor::ActorEvent::{Closed, GetData, RecordData};
use channel_patterns::batch::Batcher;
use channel_patterns::rate::{RateWindow, PROCESSOR_WINDOW_NANOS, PRODUCER_WINDOW_NANOS};
use channel_patterns::select::{
    receiver_next, sensor_next, ReceiverAction, ReceiverEvent, SensorAction, StopReason,
};

#[test]
fn batch_flushes_when_full() {
    let mut b = Batcher::new(3);
    assert_eq!(b.push(1, 3), None);
    assert_eq!(b.push(2, 3), None);
    assert_eq!(b.pending(), &[1, 2]);
    assert_eq!(b.push(3, 3), Some(vec![1, 2, 3]));
    assert!(b.pending().is_empty());
    assert_eq!(b.push(4, 3), None);
    assert_eq!(b.pending(), &[4]);
}

#[test]
fn batch_size_zero_or_one_flushes_every_value() {
    let mut b = Batcher::new(0);
    assert_eq!(b.push(7, 0), Some(vec![7]));
    assert_eq!(b.push(8, 1), Some(vec![8]));
    assert!(b.pending().is_empty());
}

#[test]
fn batch_size_lowered_flushes_everything_pending() {
    let mut b = Batcher::new(10);
    for v in 0..5u64 {
        assert_eq!(b.push(v, 10), None);
    }
    assert_eq!(b.push(5, 2), Some(vec![0, 1, 2, 3, 4, 5]));
}

#[test]
fn batches_keep_every_value_in_order() {
    let mut b = Batcher::new(4);
    let mut out: Vec<Vec<u64>> = Vec::new();
    for v in 0..10u64 {
        if let Some(full) = b.push(v, 4) {
            out.push(full);
        }
    }
    assert_eq!(out, vec![vec![0, 1, 2, 3], vec![4, 5, 6, 7]]);
    assert_eq!(b.pending(), &[8, 9]);
    let mut all: Vec<u64> = out.concat();
    all.extend_from_slice(b.pending());
    assert_eq!(all, (0..10u64).collect::<Vec<_>>());
}

#[test]
fn producer_window_reports_after_a_tenth_of_a_second() {
    assert_eq!(PRODUCER_WINDOW_NANOS, 99_999_996);
    let mut w = RateWindow::producer();
    assert_eq!(w.record(0), None);
    assert_eq!(w.record(99_999_995), None);
    assert_eq!(w.pending_count(), 2);
    assert_eq!(w.record(99_999_996), Some(3));
    assert_eq!(w.pending_count(), 0);
    assert_eq!(w.record(5), None);
    assert_eq!(w.pending_count(), 1);
}

#[test]
fn processor_window_reports_after_a_quarter_second() {
    assert_eq!(PROCESSOR_WINDOW_NANOS, 249_999_992);
    let mut w = RateWindow::processor();
    assert_eq!(w.record(100_000_000), None);
    assert_eq!(w.record(249_999_991), None);
    assert_eq!(w.record(249_999_992), Some(3));
    assert_eq!(w.record(1_000_000_000), Some(1));
}

fn reports_like_f32_seconds(window: RateWindow, threshold: f32, nanos: u64) -> bool {
    let mut w = window;
    let by_window = w.record(nanos as u128).is_some();
    let by_seconds = std::time::Duration::from_nanos(nanos).as_secs_f32() >= threshold;
    assert_eq!(by_window, by_seconds, "at {} ns", nanos);
    by_window
}

#[test]
fn windows_decide_as_f32_seconds_do() {
    for nanos in (99_999_000..100_001_000u64).chain([0, 1, 50_000_000, 1_000_000_000, 5_000_000_000]) {
        reports_like_f32_seconds(RateWindow::producer(), 0.1, nanos);
    }
    for nanos in (249_999_000..250_001_000u64).chain([0, 100_000_000, 999_999_999, 1_000_000_000]) {
        reports_like_f32_seconds(RateWindow::processor(), 0.25, nanos);
    }
    for nanos in (0..1_000_000_000u64).step_by(999_983) {
        reports_like_f32_seconds(RateWindow::producer(), 0.1, nanos);
        reports_like_f32_seconds(RateWindow::processor(), 0.25, nanos);
    }
}

#[test]
fn window_counts_every_event() {
    let mut w = RateWindow::new(10);
    let elapsed = [1u128, 3, 10, 2, 2, 50, 0, 0, 0];
    let mut reported = 0i64;
    let mut reports = 0;
    for e in elapsed {
        if let Some(c) = w.record(e) {
            assert!(c >= 1);
            reported += c as i64;
            reports += 1;
        }
    }
    assert_eq!(reports, 2);
    assert_eq!(reported + w.pending_count() as i64, elapsed.len() as i64);
    assert_eq!(w.pending_count(), 3);
}

#[test]
fn actor_answers_with_running_total() {
    let mut a = Actor::new();
    assert_eq!(a.handle(ActorEvent::GetData), ActorAction::Reply(0));
    assert_eq!(a.handle(ActorEvent::RecordData(5)), ActorAction::Continue);
    assert_eq!(a.handle(ActorEvent::RecordData(7)), ActorAction::Continue);
    assert_eq!(a.handle(ActorEvent::GetData), ActorAction::Reply(12));
    assert_eq!(a.data(), 12);
    assert_eq!(a.handle(ActorEvent::Closed), ActorAction::Stop);
    assert_eq!(a.data(), 12);
}

#[test]
fn actor_reply_is_sum_of_recorded_values() {
    let mut a = Actor::new();
    let mut sum = 0u64;
    for i in 0..1024u64 {
        a.handle(ActorEvent::RecordData(i));
        sum += i;
        if i % 100 == 0 {
            assert_eq!(a.handle(ActorEvent::GetData), ActorAction::Reply(sum));
        }
    }
    assert_eq!(sum, 523776);
    assert_eq!(a.handle(ActorEvent::GetData), ActorAction::Reply(523776));
}

#[test]
fn actor_total_reaches_u64_max() {
    let mut a = Actor::new();
    a.handle(ActorEvent::RecordData(u64::MAX - 1));
    a.handle(ActorEvent::RecordData(1));
    assert_eq!(a.handle(ActorEvent::GetData), ActorAction::Reply(u64::MAX));
}

#[test]
fn sensor_stops_when_send_fails() {
    assert_eq!(sensor_next(true), SensorAction::PauseThenSend);
    assert_eq!(sensor_next(false), SensorAction::Stop);
}

#[test]
fn receiver_decisions() {
    assert_eq!(receiver_next(ReceiverEvent::Reading), ReceiverAction::Accumulate);
    assert_eq!(
        receiver_next(ReceiverEvent::SensorClosed),
        ReceiverAction::Stop(StopReason::SensorClosed)
    );
    assert_eq!(receiver_next(ReceiverEvent::Stop), ReceiverAction::Stop(StopReason::Commanded));
    assert_eq!(
        receiver_next(ReceiverEvent::ControlClosed),
        ReceiverAction::Stop(StopReason::ControlClosed)
    );
}

#[test]
fn receiver_stops_at_first_non_reading() {
    let events = [
        ReceiverEvent::Reading,
        ReceiverEvent::Reading,
        ReceiverEvent::Stop,
        ReceiverEvent::Reading,
    ];
    let mut accumulated = 0;
    let mut stopped = None;
    for e in events {
        match receiver_next(e) {
            ReceiverAction::Accumulate => accumulated += 1,
            ReceiverAction::Stop(r) => {
                stopped = Some(r);
                break;
            }
        }
    }
    assert_eq!(accumulated, 2);
    assert_eq!(stopped, Some(StopReason::Commanded));
}

fn replies(events: &[ActorEvent]) -> Vec<ActorAction> {
    let mut a = Actor::new();
    events.iter().map(|e| a.handle(*e)).collect()
}

#[test]
fn reordering_records_between_requests_keeps_replies() {
    let e1 = [RecordData(1), RecordData(2), GetData, RecordData(4), RecordData(8), RecordData(16), GetData, Closed];
    let e2 = [RecordData(2), RecordData(1), GetData, RecordData(16), RecordData(4), RecordData(8), GetData, Closed];
    assert_eq!(replies(&e1), replies(&e2));
    assert_eq!(replies(&e1)[2], ActorAction::Reply(3));
    assert_eq!(replies(&e1)[6], ActorAction::Reply(31));
    // Moving a record across a request changes the reply.
    let e3 = [RecordData(1), GetData, RecordData(2), RecordData(4), RecordData(8), RecordData(16), GetData, Closed];
    assert_eq!(replies(&e3)[1], ActorAction::Reply(1));
}
