//! Counting events over a time window, for the throughput reports of the
//! producer and of the two processing layers.
//!
//! Each stage counts what it handles; once the time since the window opened
//! reaches the window's length, the stage reports the count (from which the
//! caller derives a rate per second), and a new window opens with a count of
//! zero. Time is handed in as whole nanoseconds since the window opened.
//!
//! The stages compare the elapsed time, as `f32` seconds, with `0.1` or
//! `0.25`. Below one second that value grows with the nanoseconds, so the
//! comparison holds exactly from a whole number of nanoseconds on; because of
//! the rounding to `f32` that number lies a few nanoseconds below the decimal
//! one. The windows below are those numbers, so comparing whole nanoseconds
//! with them decides exactly as the `f32` comparison does.
use vstd::prelude::*;

verus! {

/// The window of the producer, a tenth of a second: the fewest nanoseconds
/// whose `Duration::as_secs_f32` is at least `0.1f32` (99,999,995 gives less).
pub const PRODUCER_WINDOW_NANOS: u128 = 99_999_996;

/// The window of the processing layers, a quarter of a second: the fewest
/// nanoseconds whose `Duration::as_secs_f32` is at least `0.25f32`
/// (249,999,991 gives less).
pub const PROCESSOR_WINDOW_NANOS: u128 = 249_999_992;

/// One step of a window: the report it gives, if any, and the count after it.
pub open spec fn window_step(pending: int, window: nat, elapsed: nat) -> (Option<int>, int) {
    if elapsed >= window {
        (Some(pending + 1), 0)
    } else {
        (None, pending + 1)
    }
}

/// The reports and the final count after a run of events, each given with the
/// time since the window it falls in opened.
pub open spec fn window_run(pending: int, window: nat, elapsed: Seq<nat>) -> (Seq<int>, int)
    decreases elapsed.len(),
{
    if elapsed.len() == 0 {
        (Seq::empty(), pending)
    } else {
        let (reports, count) = window_run(pending, window, elapsed.drop_last());
        let (report, next) = window_step(count, window, elapsed.last());
        match report {
            Some(r) => (reports.push(r), next),
            None => (reports, next),
        }
    }
}

/// The sum of a sequence of counts.
pub open spec fn total(counts: Seq<int>) -> int
    decreases counts.len(),
{
    if counts.len() == 0 {
        0
    } else {
        total(counts.drop_last()) + counts.last()
    }
}

/// How many of the elapsed times reach the window.
pub open spec fn reaching(window: nat, elapsed: Seq<nat>) -> nat
    decreases elapsed.len(),
{
    if elapsed.len() == 0 {
        0
    } else {
        reaching(window, elapsed.drop_last()) + if elapsed.last() >= window { 1nat } else { 0nat }
    }
}

/// The count of events in the current window.
pub struct RateWindow {
    count: i32,
    window_nanos: u128,
}

impl RateWindow {
    /// The events counted in the window that is open.
    pub closed spec fn pending(&self) -> int {
        self.count as int
    }

    /// The window's length in nanoseconds.
    pub closed spec fn window(&self) -> nat {
        self.window_nanos as nat
    }

    /// A window of `window_nanos` nanoseconds with nothing counted yet.
    pub fn new(window_nanos: u128) -> (w: RateWindow)
        ensures
            w.pending() == 0,
            w.window() == window_nanos,
    {
        RateWindow { count: 0, window_nanos }
    }

    /// The window of the producer, a tenth of a second.
    pub fn producer() -> (w: RateWindow)
        ensures
            w.pending() == 0,
            w.window() == PRODUCER_WINDOW_NANOS,
    {
        RateWindow::new(PRODUCER_WINDOW_NANOS)
    }

    /// The window of a processing layer, a quarter of a second.
    pub fn processor() -> (w: RateWindow)
        ensures
            w.pending() == 0,
            w.window() == PROCESSOR_WINDOW_NANOS,
    {
        RateWindow::new(PROCESSOR_WINDOW_NANOS)
    }

    /// The events counted in the window that is open.
    pub fn pending_count(&self) -> (c: i32)
        ensures
            c == self.pending(),
    {
        self.count
    }

    /// Counts one event that happened `elapsed_nanos` after the window opened.
    /// When that reaches the window's length, returns the count to report
    /// (this event included) and starts the count again from zero.
    pub fn record(&mut self, elapsed_nanos: u128) -> (report: Option<i32>)
        requires
            old(self).pending() < i32::MAX,
        ensures
            final(self).window() == old(self).window(),
            (match report {
                Some(c) => Some(c as int),
                None => None::<int>,
            }, final(self).pending()) == window_step(old(self).pending(), old(self).window(), elapsed_nanos as nat),
    {
        self.count = self.count + 1;
        if elapsed_nanos >= self.window_nanos {
            let c = self.count;
            self.count = 0;
            Some(c)
        } else {
            None
        }
    }
}

/// No event goes uncounted: over any run, the reported counts and the count
/// still pending add up to the pending count at the start plus the number of
/// events; a report comes exactly for each event that reaches the window, and
/// every report counts at least one event.
pub proof fn law_window_counts_every_event(pending: int, window: nat, elapsed: Seq<nat>)
    requires
        pending >= 0,
    ensures
        total(window_run(pending, window, elapsed).0) + window_run(pending, window, elapsed).1
            == pending + elapsed.len(),
        window_run(pending, window, elapsed).0.len() == reaching(window, elapsed),
        forall|i: int|
            0 <= i < window_run(pending, window, elapsed).0.len()
                ==> #[trigger] window_run(pending, window, elapsed).0[i] >= 1,
        window_run(pending, window, elapsed).1 >= 0,
    decreases elapsed.len(),
{
    if elapsed.len() > 0 {
        law_window_counts_every_event(pending, window, elapsed.drop_last());
        let (reports, count) = window_run(pending, window, elapsed.drop_last());
        if elapsed.last() >= window {
            assert(reports.push(count + 1).drop_last() =~= reports);
            assert forall|i: int| 0 <= i < reports.push(count + 1).len() implies #[trigger] reports.push(count + 1)[i] >= 1 by {
                if i < reports.len() {
                    assert(reports.push(count + 1)[i] == reports[i]);
                }
            }
        }
    }
}

/// The count pending after a run is the number of events since the last
/// report: with no event reaching the window, every event stays pending.
pub proof fn law_window_quiet_run_keeps_counting(pending: int, window: nat, elapsed: Seq<nat>)
    requires
        forall|i: int| 0 <= i < elapsed.len() ==> #[trigger] elapsed[i] < window,
    ensures
        window_run(pending, window, elapsed).0.len() == 0,
        window_run(pending, window, elapsed).1 == pending + elapsed.len(),
    decreases elapsed.len(),
{
    if elapsed.len() > 0 {
        law_window_quiet_run_keeps_counting(pending, window, elapsed.drop_last());
        assert(elapsed.last() == elapsed[elapsed.len() - 1]);
    }
}

/// A report counts the events since the previous report: after a run that
/// ends with a report (or an empty run from a fresh window), a run of events
/// that stay within the window followed by one that reaches it gives exactly
/// one more report, of those events plus the one that reached the window, and
/// leaves nothing pending.
pub proof fn law_report_counts_events_since_last_report(
    window: nat,
    before: Seq<nat>,
    quiet: Seq<nat>,
    reaching_elapsed: nat,
)
    requires
        before.len() == 0 || before.last() >= window,
        forall|i: int| 0 <= i < quiet.len() ==> #[trigger] quiet[i] < window,
        reaching_elapsed >= window,
    ensures
        window_run(0, window, before).1 == 0,
        window_run(0, window, before + quiet + seq![reaching_elapsed]).0
            == window_run(0, window, before).0.push(quiet.len() as int + 1),
        window_run(0, window, before + quiet + seq![reaching_elapsed]).1 == 0,
{
    if before.len() > 0 {
        let (r, c) = window_run(0, window, before.drop_last());
        assert(window_step(c, window, before.last()).1 == 0);
    }
    lemma_window_run_concat(0, window, before, quiet);
    law_window_quiet_run_keeps_counting(0, window, quiet);
    let all = before + quiet + seq![reaching_elapsed];
    assert(all.drop_last() =~= before + quiet);
    assert(all.last() == reaching_elapsed);
}

/// A run over two pieces is the run over the second piece, started where the
/// first left off, its reports after the first's.
proof fn lemma_window_run_concat(pending: int, window: nat, a: Seq<nat>, b: Seq<nat>)
    ensures
        window_run(pending, window, a + b).0
            == window_run(pending, window, a).0 + window_run(window_run(pending, window, a).1, window, b).0,
        window_run(pending, window, a + b).1 == window_run(window_run(pending, window, a).1, window, b).1,
    decreases b.len(),
{
    if b.len() == 0 {
        assert(a + b =~= a);
        assert(window_run(pending, window, a).0 + Seq::<int>::empty() =~= window_run(pending, window, a).0);
    } else {
        lemma_window_run_concat(pending, window, a, b.drop_last());
        assert((a + b).drop_last() =~= a + b.drop_last());
        assert((a + b).last() == b.last());
        let ra = window_run(pending, window, a).0;
        let rb = window_run(window_run(pending, window, a).1, window, b.drop_last()).0;
        let step = window_step(window_run(pending, window, a + b.drop_last()).1, window, b.last());
        if step.0 is Some {
            assert((ra + rb).push(step.0->0) =~= ra + rb.push(step.0->0));
        }
    }
}

} // verus!
