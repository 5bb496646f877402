//! The sending side of the programs where many threads send to one receiver
//! over a bounded channel of the standard library: each thread sends one
//! message per index, in order, either a line of text or the time it was
//! sent, timing each send.
use vstd::prelude::*;
use vstd::utf8::{valid_utf8, decode_utf8};
use crate::lines::{thread_message, thread_message_text, lemma_thread_message_ascii};
use crate::text::{ascii_chars, lemma_ascii_is_utf8};

verus! {

/// The sending half of a bounded channel of the standard library.
#[verifier::external_type_specification]
#[verifier::external_body]
#[verifier::reject_recursive_types(T)]
pub struct ExSyncSender<T>(std::sync::mpsc::SyncSender<T>);

/// How many messages each thread sends.
pub const MESSAGES_PER_THREAD: i32 = 1024;

/// What the threads send: text to print.
pub enum Message {
    Print(String),
}

/// A sender of a bounded channel of the standard library that keeps a record
/// of every message the channel took from it, in order. The record is ghost:
/// it costs nothing when the program runs.
#[verifier::reject_recursive_types(T)]
pub struct SyncOutbox<T> {
    tx: std::sync::mpsc::SyncSender<T>,
    handed: Ghost<Seq<T>>,
}

impl<T> SyncOutbox<T> {
    /// The messages the channel took from this sender, oldest first.
    pub closed spec fn sent(&self) -> Seq<T> {
        self.handed@
    }

    /// Sends through `tx`, with nothing sent yet.
    pub fn new(tx: std::sync::mpsc::SyncSender<T>) -> (out: SyncOutbox<T>)
        ensures
            out.sent() == Seq::<T>::empty(),
    {
        SyncOutbox { tx, handed: Ghost(Seq::empty()) }
    }

    /// `SyncSender::send` of the standard library: hands `msg` to the channel,
    /// waiting while its buffer is full, and on success the channel holds it
    /// after the messages sent before; once the receiver is gone it fails,
    /// gives the message back and the channel takes nothing. Which outcome
    /// comes depends on the receiving thread, so it is not claimed; the record
    /// of messages taken grows by `msg` exactly on success.
    #[verifier::external_body]
    pub(crate) fn send(&mut self, msg: T) -> (r: Result<(), T>)
        ensures
            r is Ok ==> final(self).sent() == old(self).sent().push(msg),
            r matches Err(m) ==> m == msg && final(self).sent() == old(self).sent(),
    {
        match self.tx.send(msg) {
            Ok(()) => Ok(()),
            Err(e) => Err(e.0),
        }
    }
}

/// The text a message holds.
pub open spec fn message_text(m: Message) -> Seq<char> {
    match m {
        Message::Print(s) => s@,
    }
}

/// The texts of a run of messages, in order.
pub open spec fn texts(messages: Seq<Message>) -> Seq<Seq<char>> {
    messages.map_values(|m: Message| message_text(m))
}

/// The texts of messages `0` to `n - 1` of thread `t`, in order.
pub open spec fn thread_texts(t: i32, n: int) -> Seq<Seq<char>> {
    Seq::new(n as nat, |i: int| ascii_chars(thread_message_text(t as int, i)))
}

/// `String::from_utf8` of the standard library, on bytes that are valid
/// UTF-8: the string holds the characters that the bytes encode.
#[verifier::external_body]
fn string_from_utf8(bytes: Vec<u8>) -> (s: String)
    requires
        valid_utf8(bytes@),
    ensures
        s@ == decode_utf8(bytes@),
{
    String::from_utf8(bytes).unwrap()
}

/// The text thread `t` sends for its `i`-th message, as a string.
pub fn thread_message_string(t: i32, i: i32) -> (s: String)
    ensures
        s@ == ascii_chars(thread_message_text(t as int, i as int)),
{
    let bytes = thread_message(t, i);
    proof {
        lemma_thread_message_ascii(t as int, i as int);
        lemma_ascii_is_utf8(bytes@);
    }
    string_from_utf8(bytes)
}

/// Sends the text of messages `0` to `MESSAGES_PER_THREAD - 1` of thread `t`,
/// in that order. When the channel refuses one (the receiver is gone), stops
/// there and returns the refused message; the messages after it are not sent.
pub fn send_thread_messages(out: &mut SyncOutbox<Message>, t: i32) -> (r: Result<(), Message>)
    ensures
        r is Ok ==> texts(final(out).sent())
            == texts(old(out).sent()) + thread_texts(t, MESSAGES_PER_THREAD as int),
        r matches Err(m) ==> exists|k: int|
            0 <= k < MESSAGES_PER_THREAD && message_text(m) == ascii_chars(thread_message_text(t as int, k))
                && texts(final(out).sent()) == texts(old(out).sent()) + #[trigger] thread_texts(t, k),
{
    let ghost before = texts(old(out).sent());
    let mut i: i32 = 0;
    while i < MESSAGES_PER_THREAD
        invariant
            0 <= i <= MESSAGES_PER_THREAD,
            before == texts(old(out).sent()),
            texts(out.sent()) == before + thread_texts(t, i as int),
        decreases MESSAGES_PER_THREAD - i,
    {
        let text = thread_message_string(t, i);
        let ghost prev = out.sent();
        let sent = out.send(Message::Print(text));
        match sent {
            Ok(()) => {},
            Err(m) => {
                return Err(m);
            },
        }
        proof {
            assert(out.sent() == prev.push(Message::Print(text)));
            assert(texts(out.sent())
                =~= texts(prev).push(text@));
            assert(thread_texts(t, i + 1) =~= thread_texts(t, i as int).push(text@));
            assert(texts(out.sent()) =~= before + thread_texts(t, i + 1));
        }
        i = i + 1;
    }
    Ok(())
}

/// A point in time, from the standard library's monotonic clock.
#[verifier::external_type_specification]
#[verifier::external_body]
pub struct ExInstant(std::time::Instant);

/// What the timing threads send: the time the message was sent.
pub enum TimedMessage {
    TimeMe(std::time::Instant),
}

/// `Instant::now` of the standard library: the current time. It depends on
/// the clock alone, so nothing is claimed of it.
#[verifier::external_body]
fn instant_now() -> (now: std::time::Instant) {
    std::time::Instant::now()
}

/// `Instant::elapsed` of the standard library: the time since `start`. It
/// depends on the clock, so nothing is claimed of it.
#[verifier::external_body]
fn instant_elapsed(start: &std::time::Instant) -> (d: std::time::Duration) {
    start.elapsed()
}

/// Sends `MESSAGES_PER_THREAD` messages, each holding the time it was sent,
/// and returns how long each send took, in the order sent: one timing per
/// message the channel took. When the channel refuses one (the receiver is
/// gone), stops there and returns the refused message; the channel took the
/// messages before it. The times themselves come from the clock, so only how
/// many messages the channel took is stated of them.
pub fn send_timed(out: &mut SyncOutbox<TimedMessage>) -> (r: Result<Vec<std::time::Duration>, TimedMessage>)
    ensures
        final(out).sent().subrange(0, old(out).sent().len() as int) == old(out).sent(),
        r matches Ok(timings) ==> timings.len() == MESSAGES_PER_THREAD
            && final(out).sent().len() == old(out).sent().len() + MESSAGES_PER_THREAD,
        r is Err ==> final(out).sent().len() < old(out).sent().len() + MESSAGES_PER_THREAD,
{
    let mut timings: Vec<std::time::Duration> = Vec::with_capacity(1024);
    let mut i: i32 = 0;
    while i < MESSAGES_PER_THREAD
        invariant
            0 <= i <= MESSAGES_PER_THREAD,
            timings.len() == i,
            out.sent().len() == old(out).sent().len() + i,
            out.sent().subrange(0, old(out).sent().len() as int) == old(out).sent(),
        decreases MESSAGES_PER_THREAD - i,
    {
        let now = instant_now();
        let ghost prev = out.sent();
        let sent = out.send(TimedMessage::TimeMe(now));
        match sent {
            Ok(()) => {},
            Err(m) => {
                return Err(m);
            },
        }
        assert(out.sent().subrange(0, old(out).sent().len() as int) =~= prev.subrange(0, old(out).sent().len() as int));
        let elapsed = instant_elapsed(&now);
        timings.push(elapsed);
        i = i + 1;
    }
    Ok(timings)
}

} // verus!
