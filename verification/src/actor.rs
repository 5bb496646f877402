//! An actor that keeps a running total: it adds every value it is sent to the
//! total, answers each query with the total so far, and stops once its
//! channel is closed.
use vstd::prelude::*;

verus! {

/// What the actor receives.
#[derive(Debug, Clone, Copy)]
pub enum ActorEvent {
    /// A value to add to the total.
    RecordData(u64),
    /// A request for the total so far.
    GetData,
    /// The channel is closed: no more messages will come.
    Closed,
}

/// What the actor does next.
#[derive(Debug, Clone, Copy, PartialEq, Eq, Structural)]
pub enum ActorAction {
    /// Wait for the next message.
    Continue,
    /// Answer the request with this total, then wait for the next message.
    Reply(u64),
    /// Stop.
    Stop,
}

/// The total after an event, and what the actor does then.
pub open spec fn actor_step(data: int, event: ActorEvent) -> (int, ActorAction) {
    match event {
        ActorEvent::RecordData(d) => (data + d, ActorAction::Continue),
        ActorEvent::GetData => (data, ActorAction::Reply(data as u64)),
        ActorEvent::Closed => (data, ActorAction::Stop),
    }
}

/// The total after a run of events, and the action taken after each.
pub open spec fn actor_run(data: int, events: Seq<ActorEvent>) -> (int, Seq<ActorAction>)
    decreases events.len(),
{
    if events.len() == 0 {
        (data, Seq::empty())
    } else {
        let (total, actions) = actor_run(data, events.drop_last());
        let (next, action) = actor_step(total, events.last());
        (next, actions.push(action))
    }
}

/// The sum of the values recorded in a run of events.
pub open spec fn recorded_sum(events: Seq<ActorEvent>) -> int
    decreases events.len(),
{
    if events.len() == 0 {
        0
    } else {
        recorded_sum(events.drop_last()) + match events.last() {
            ActorEvent::RecordData(d) => d as int,
            _ => 0,
        }
    }
}

/// The actor's state: the total of the values recorded.
pub struct Actor {
    data: u64,
}

impl Actor {
    /// The total of the values recorded so far.
    pub closed spec fn total(&self) -> int {
        self.data as int
    }

    /// An actor whose total is zero.
    pub fn new() -> (a: Actor)
        ensures
            a.total() == 0,
    {
        Actor { data: 0 }
    }

    /// The total of the values recorded so far.
    pub fn data(&self) -> (d: u64)
        ensures
            d == self.total(),
    {
        self.data
    }

    /// Handles one event: a value is added to the total, a request is
    /// answered with the total, a closed channel stops the actor.
    pub fn handle(&mut self, event: ActorEvent) -> (action: ActorAction)
        requires
            event matches ActorEvent::RecordData(d) ==> old(self).total() + d <= u64::MAX,
        ensures
            (final(self).total(), action) == actor_step(old(self).total(), event),
    {
        match event {
            ActorEvent::RecordData(d) => {
                self.data = self.data + d;
                ActorAction::Continue
            },
            ActorEvent::GetData => ActorAction::Reply(self.data),
            ActorEvent::Closed => ActorAction::Stop,
        }
    }
}

/// A query is answered with the sum of the values recorded before it: started
/// from zero, the actor's total after any run is the sum of the values it
/// recorded, and the action after the `k`-th event is a reply with the sum of
/// the values among the first `k` events when that event is a request, a stop
/// when it is the channel's closing, and waiting otherwise. Runs whose sum
/// does not fit in a `u64` are left out: adding to the total overflows there.
pub proof fn law_reply_is_sum_of_recorded(events: Seq<ActorEvent>)
    requires
        recorded_sum(events) <= u64::MAX,
    ensures
        actor_run(0, events).0 == recorded_sum(events),
        actor_run(0, events).1.len() == events.len(),
        forall|k: int| 0 <= k < events.len() ==> #[trigger] actor_run(0, events).1[k] == match events[k] {
            ActorEvent::RecordData(_) => ActorAction::Continue,
            ActorEvent::GetData => ActorAction::Reply(recorded_sum(events.take(k)) as u64),
            ActorEvent::Closed => ActorAction::Stop,
        },
    decreases events.len(),
{
    if events.len() > 0 {
        let prefix = events.drop_last();
        lemma_recorded_sum_monotone(events);
        law_reply_is_sum_of_recorded(prefix);
        let (total, actions) = actor_run(0, prefix);
        let (next, action) = actor_step(total, events.last());
        assert(events.take(events.len() - 1) =~= prefix);
        assert forall|k: int| 0 <= k < events.len() implies #[trigger] actor_run(0, events).1[k] == match events[k] {
            ActorEvent::RecordData(_) => ActorAction::Continue,
            ActorEvent::GetData => ActorAction::Reply(recorded_sum(events.take(k)) as u64),
            ActorEvent::Closed => ActorAction::Stop,
        } by {
            if k < events.len() - 1 {
                assert(actions.push(action)[k] == actions[k]);
                assert(prefix[k] == events[k]);
                assert(prefix.take(k) =~= events.take(k));
            }
        }
    }
}

/// Recording never lowers the sum: every prefix sums to no more than the whole.
proof fn lemma_recorded_sum_monotone(events: Seq<ActorEvent>)
    requires
        events.len() > 0,
    ensures
        0 <= recorded_sum(events.drop_last()) <= recorded_sum(events),
    decreases events.len(),
{
    if events.len() > 1 {
        lemma_recorded_sum_monotone(events.drop_last());
    }
}

/// The values recorded in a run of events, in the order they came.
pub open spec fn recorded_values(events: Seq<ActorEvent>) -> Seq<u64>
    decreases events.len(),
{
    if events.len() == 0 {
        Seq::empty()
    } else {
        let before = recorded_values(events.drop_last());
        match events.last() {
            ActorEvent::RecordData(d) => before.push(d),
            _ => before,
        }
    }
}

/// The sum of a sequence of values.
pub open spec fn sum_of(values: Seq<u64>) -> int
    decreases values.len(),
{
    if values.len() == 0 {
        0
    } else {
        sum_of(values.drop_last()) + values.last()
    }
}

/// The sum recorded in a run is the sum of the values it recorded.
proof fn lemma_recorded_sum_is_sum_of_values(events: Seq<ActorEvent>)
    ensures
        recorded_sum(events) == sum_of(recorded_values(events)),
    decreases events.len(),
{
    if events.len() > 0 {
        lemma_recorded_sum_is_sum_of_values(events.drop_last());
        let before = recorded_values(events.drop_last());
        if let ActorEvent::RecordData(d) = events.last() {
            assert(before.push(d).drop_last() =~= before);
        }
    }
}

/// Taking one value out of a sequence takes it out of the sum.
proof fn lemma_sum_of_remove(values: Seq<u64>, i: int)
    requires
        0 <= i < values.len(),
    ensures
        sum_of(values) == sum_of(values.remove(i)) + values[i],
    decreases values.len(),
{
    if i == values.len() - 1 {
        assert(values.remove(i) =~= values.drop_last());
    } else {
        let rest = values.drop_last();
        lemma_sum_of_remove(rest, i);
        let removed = values.remove(i);
        assert(removed.drop_last() =~= rest.remove(i));
        assert(removed.last() == values.last());
    }
}

/// The sum does not depend on the order of the values.
proof fn lemma_sum_of_permutation(a: Seq<u64>, b: Seq<u64>)
    requires
        a.to_multiset() == b.to_multiset(),
    ensures
        sum_of(a) == sum_of(b),
    decreases a.len(),
{
    broadcast use vstd::seq_lib::group_to_multiset_ensures;
    broadcast use vstd::multiset::group_multiset_axioms;

    if a.len() == 0 {
        assert(b.to_multiset().len() == 0);
        assert(b.len() == 0);
    } else {
        let x = a.last();
        let rest = a.drop_last();
        assert(rest.push(x) =~= a);
        assert(a.to_multiset() =~= rest.to_multiset().insert(x));
        assert(a.to_multiset().count(x) > 0);
        assert(b.to_multiset().count(x) > 0);
        assert(b.contains(x));
        let i = choose|i: int| 0 <= i < b.len() && b[i] == x;
        let others = b.remove(i);
        assert(others.to_multiset() =~= b.to_multiset().remove(x));
        assert(rest.to_multiset() =~= rest.to_multiset().insert(x).remove(x));
        lemma_sum_of_permutation(rest, others);
        lemma_sum_of_remove(b, i);
    }
}

/// Reordering the values recorded between two requests does not change any
/// reply: when two runs agree on every event that is not a record (requests
/// and closings stand at the same places), and before each request they have
/// recorded the same values up to order, the actor acts alike after every
/// event of both. Runs whose sums do not fit in a `u64` are left out: adding
/// to the total overflows there.
pub proof fn law_reordering_records_keeps_replies(e1: Seq<ActorEvent>, e2: Seq<ActorEvent>)
    requires
        e1.len() == e2.len(),
        forall|k: int| 0 <= k < e1.len() && !(e1[k] is RecordData) ==> e2[k] == e1[k],
        forall|k: int| 0 <= k < e2.len() && !(e2[k] is RecordData) ==> e1[k] == e2[k],
        forall|k: int|
            0 <= k < e1.len() && #[trigger] e1[k] is GetData ==> recorded_values(e1.take(k)).to_multiset()
                == recorded_values(e2.take(k)).to_multiset(),
        recorded_sum(e1) <= u64::MAX,
        recorded_sum(e2) <= u64::MAX,
    ensures
        actor_run(0, e1).1 == actor_run(0, e2).1,
{
    law_reply_is_sum_of_recorded(e1);
    law_reply_is_sum_of_recorded(e2);
    let a1 = actor_run(0, e1).1;
    let a2 = actor_run(0, e2).1;
    assert forall|k: int| 0 <= k < a1.len() implies a1[k] == a2[k] by {
        match e1[k] {
            ActorEvent::RecordData(_) => {
                assert(e2[k] is RecordData);
            },
            ActorEvent::GetData => {
                assert(e2[k] == e1[k]);
                lemma_recorded_sum_is_sum_of_values(e1.take(k));
                lemma_recorded_sum_is_sum_of_values(e2.take(k));
                lemma_sum_of_permutation(recorded_values(e1.take(k)), recorded_values(e2.take(k)));
            },
            ActorEvent::Closed => {
                assert(e2[k] == e1[k]);
            },
        }
    }
    assert(a1 =~= a2);
}

} // verus!
