//! The sending side of the program with many senders and several receivers
//! on one bounded flume channel: each sending thread sends its own number
//! paired with each message index, in order, and the contracts say which
//! messages the channel took.
use vstd::prelude::*;

verus! {

/// flume's sending half of a channel.
#[verifier::external_type_specification]
#[verifier::external_body]
#[verifier::reject_recursive_types(T)]
pub struct ExFlumeSender<T>(flume::Sender<T>);

/// How many messages each sending thread sends.
pub const MESSAGES_PER_SENDER: i32 = 1024;

/// The messages `(t, 0)`, `(t, 1)`, ... `(t, n - 1)`.
pub open spec fn numbered(t: i32, n: int) -> Seq<(i32, i32)> {
    Seq::new(n as nat, |i: int| (t, i as i32))
}

/// A flume sender that keeps a record of every message the channel took from
/// it, in order. The record is ghost: it costs nothing when the program runs.
#[verifier::reject_recursive_types(T)]
pub struct FlumeOutbox<T> {
    tx: flume::Sender<T>,
    handed: Ghost<Seq<T>>,
}

impl<T> FlumeOutbox<T> {
    /// The messages the channel took from this sender, oldest first.
    pub closed spec fn sent(&self) -> Seq<T> {
        self.handed@
    }

    /// Sends through `tx`, with nothing sent yet.
    pub fn new(tx: flume::Sender<T>) -> (out: FlumeOutbox<T>)
        ensures
            out.sent() == Seq::<T>::empty(),
    {
        FlumeOutbox { tx, handed: Ghost(Seq::empty()) }
    }

    /// flume's `Sender::send`: hands `msg` to the channel, waiting while a
    /// bounded channel is full, and on success the channel holds it after the
    /// messages sent before; once every receiver is gone it fails, gives the
    /// message back and the channel takes nothing. Which outcome comes depends
    /// on the other threads, so it is not claimed; the record of messages
    /// taken grows by `msg` exactly on success.
    #[verifier::external_body]
    pub(crate) fn send(&mut self, msg: T) -> (r: Result<(), T>)
        ensures
            r is Ok ==> final(self).sent() == old(self).sent().push(msg),
            r matches Err(m) ==> m == msg && final(self).sent() == old(self).sent(),
    {
        match self.tx.send(msg) {
            Ok(()) => Ok(()),
            Err(e) => Err(e.0),
        }
    }
}

/// Sends `(t, 0)`, `(t, 1)`, ... up to `(t, MESSAGES_PER_SENDER - 1)`, in
/// that order. When the channel refuses one (all receivers are gone), stops
/// there and returns the refused message; the messages after it are not sent.
pub fn send_numbered(out: &mut FlumeOutbox<(i32, i32)>, t: i32) -> (r: Result<(), (i32, i32)>)
    ensures
        r is Ok ==> final(out).sent() == old(out).sent() + numbered(t, MESSAGES_PER_SENDER as int),
        r matches Err(m) ==> exists|k: int|
            0 <= k < MESSAGES_PER_SENDER && m == (t, k as i32) && #[trigger] final(out).sent() == old(out).sent() + numbered(t, k),
{
    let mut i: i32 = 0;
    while i < MESSAGES_PER_SENDER
        invariant
            0 <= i <= MESSAGES_PER_SENDER,
            out.sent() == old(out).sent() + numbered(t, i as int),
        decreases MESSAGES_PER_SENDER - i,
    {
        let sent = out.send((t, i));
        match sent {
            Ok(()) => {},
            Err(m) => {
                return Err(m);
            },
        }
        assert(numbered(t, i + 1) =~= numbered(t, i as int).push((t, i)));
        assert(out.sent() =~= old(out).sent() + numbered(t, i + 1));
        i = i + 1;
    }
    Ok(())
}

} // verus!
