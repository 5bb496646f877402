//! The decisions of a sensor that keeps sending readings, and of a receiver
//! that takes readings and commands from two channels at once.
use vstd::prelude::*;

verus! {

/// What the sensor does after trying to send a reading.
#[derive(Debug, Clone, Copy, PartialEq, Eq, Structural)]
pub enum SensorAction {
    /// Pause, then send the next reading.
    PauseThenSend,
    /// Stop: the channel is closed.
    Stop,
}

/// The sensor goes on while its readings are taken, and stops at the first
/// one that cannot be sent.
pub fn sensor_next(sent: bool) -> (action: SensorAction)
    ensures
        action == (if sent { SensorAction::PauseThenSend } else { SensorAction::Stop }),
{
    if sent {
        SensorAction::PauseThenSend
    } else {
        SensorAction::Stop
    }
}

/// What the receiver sees on whichever channel is ready first.
#[derive(Debug, Clone, Copy, PartialEq, Eq, Structural)]
pub enum ReceiverEvent {
    /// A reading from the sensors.
    Reading,
    /// The sensor channel is closed.
    SensorClosed,
    /// A stop command.
    Stop,
    /// The command channel is closed.
    ControlClosed,
}

/// Why the receiver stopped.
#[derive(Debug, Clone, Copy, PartialEq, Eq, Structural)]
pub enum StopReason {
    /// The sensor channel closed.
    SensorClosed,
    /// A stop command came.
    Commanded,
    /// The command channel closed.
    ControlClosed,
}

/// What the receiver does next.
#[derive(Debug, Clone, Copy, PartialEq, Eq, Structural)]
pub enum ReceiverAction {
    /// Add the reading to the accumulator and wait for the next event.
    Accumulate,
    /// Stop, for this reason.
    Stop(StopReason),
}

/// The receiver's answer to one event.
pub open spec fn receiver_step(event: ReceiverEvent) -> ReceiverAction {
    match event {
        ReceiverEvent::Reading => ReceiverAction::Accumulate,
        ReceiverEvent::SensorClosed => ReceiverAction::Stop(StopReason::SensorClosed),
        ReceiverEvent::Stop => ReceiverAction::Stop(StopReason::Commanded),
        ReceiverEvent::ControlClosed => ReceiverAction::Stop(StopReason::ControlClosed),
    }
}

/// Accumulates each reading; stops on a stop command or when either channel closes.
pub fn receiver_next(event: ReceiverEvent) -> (action: ReceiverAction)
    ensures
        action == receiver_step(event),
{
    match event {
        ReceiverEvent::Reading => ReceiverAction::Accumulate,
        ReceiverEvent::SensorClosed => ReceiverAction::Stop(StopReason::SensorClosed),
        ReceiverEvent::Stop => ReceiverAction::Stop(StopReason::Commanded),
        ReceiverEvent::ControlClosed => ReceiverAction::Stop(StopReason::ControlClosed),
    }
}

/// How many events the receiver handles before it stops (all of them if it
/// never stops), and whether it stopped.
pub open spec fn receiver_handled(events: Seq<ReceiverEvent>) -> (nat, bool)
    decreases events.len(),
{
    if events.len() == 0 {
        (0, false)
    } else {
        let (n, stopped) = receiver_handled(events.drop_last());
        if stopped {
            (n, true)
        } else {
            match receiver_step(events.last()) {
                ReceiverAction::Accumulate => (n + 1, false),
                ReceiverAction::Stop(_) => (n + 1, true),
            }
        }
    }
}

/// The receiver takes in exactly the readings that come before the first event
/// that is not a reading, and stops at that event: all handled events but the
/// last of a stopped run are readings, and the last one is not.
pub proof fn law_receiver_stops_at_first_non_reading(events: Seq<ReceiverEvent>)
    ensures
        ({
            let (n, stopped) = receiver_handled(events);
            &&& n <= events.len()
            &&& forall|i: int| 0 <= i < n && !(stopped && i == n - 1) ==> #[trigger] events[i] == ReceiverEvent::Reading
            &&& stopped ==> n >= 1 && events[n - 1] != ReceiverEvent::Reading
            &&& !stopped ==> n == events.len()
        }),
    decreases events.len(),
{
    if events.len() > 0 {
        let prefix = events.drop_last();
        law_receiver_stops_at_first_non_reading(prefix);
        let (n, stopped) = receiver_handled(prefix);
        assert forall|i: int| 0 <= i < n implies #[trigger] events[i] == prefix[i] by {}
    }
}

/// The receiver stops exactly on the events that are not readings, and the
/// reason it gives names the event: a closed sensor channel, a stop command,
/// or a closed command channel.
pub proof fn law_stop_reason_names_the_event(event: ReceiverEvent)
    ensures
        (receiver_step(event) == ReceiverAction::Accumulate) == (event == ReceiverEvent::Reading),
        (receiver_step(event) == ReceiverAction::Stop(StopReason::SensorClosed)) == (event == ReceiverEvent::SensorClosed),
        (receiver_step(event) == ReceiverAction::Stop(StopReason::Commanded)) == (event == ReceiverEvent::Stop),
        (receiver_step(event) == ReceiverAction::Stop(StopReason::ControlClosed)) == (event == ReceiverEvent::ControlClosed),
{
}

} // verus!
