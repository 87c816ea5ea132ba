//! The sequential timer: a linear log of named events with at most one event
//! open at a time, backed by the monotonic clock.

use vstd::prelude::*;

use crate::report::format_report;
use crate::report::spec_report;

verus! {

#[verifier::external_type_specification]
#[verifier::external_body]
pub struct ExInstant(std::time::Instant);

/// Relies on `std::time::Instant::now`: a reading of the monotonic clock.
/// Nothing is promised of the value; it only anchors later elapsed readings.
#[verifier::external_body]
fn clock_now() -> std::time::Instant {
    std::time::Instant::now()
}

/// Relies on `std::time::Instant::elapsed`, which never panics: the time
/// since `start`, converted to whole nanoseconds and saturated to `u64::MAX`.
/// The value depends on the clock, so nothing is promised of it.
#[verifier::external_body]
fn nanos_since(start: &std::time::Instant) -> u64 {
    let nanos: u128 = start.elapsed().as_nanos();
    nanos.try_into().unwrap_or(u64::MAX)
}

/// A timer for a linear sequence of named events.
///
/// `start` opens a new event, closing the open one first if there is one;
/// `finish` closes the open event and is a no-op otherwise; `render` formats
/// the closed events as a report, most expensive first.
pub struct Timer {
    /// Names of all started events, in start order.
    names: Vec<&'static str>,
    /// Durations of all closed events, in nanoseconds; `durations[i]` belongs
    /// to `names[i]`.
    durations: Vec<u64>,
    /// The start instant of the currently open event, if one is open.
    started: Option<std::time::Instant>,
}

impl Timer {
    /// The names of all started events, in start order.
    pub closed spec fn event_names(&self) -> Seq<&'static str> {
        self.names@
    }

    /// The recorded durations of the closed events, in start order.
    pub closed spec fn closed_durations(&self) -> Seq<u64> {
        self.durations@
    }

    /// Whether an event is currently open.
    pub closed spec fn is_open(&self) -> bool {
        self.started is Some
    }

    /// Every started event has a name; every event but an open one has a
    /// duration.
    pub open spec fn wf(&self) -> bool {
        self.event_names().len() == self.closed_durations().len() + (if self.is_open() {
            1int
        } else {
            0int
        })
    }

    /// Creates an empty timer: no events, nothing running.
    pub fn new() -> (t: Timer)
        ensures
            t.wf(),
            t.event_names() == Seq::<&'static str>::empty(),
            t.closed_durations() == Seq::<u64>::empty(),
            !t.is_open(),
    {
        Timer { names: Vec::new(), durations: Vec::new(), started: None }
    }

    /// Finishes the open event if there is one, then starts a new event named
    /// `name`. Closing the previous event records a duration for it, so two
    /// `start` calls in a row close the first event before the second opens.
    pub fn start(&mut self, name: &'static str)
        requires
            old(self).wf(),
        ensures
            final(self).wf(),
            final(self).event_names() == old(self).event_names().push(name),
            final(self).is_open(),
            !old(self).is_open() ==> final(self).closed_durations() == old(
                self,
            ).closed_durations(),
            old(self).is_open() ==> final(self).closed_durations().len() == old(
                self,
            ).closed_durations().len() + 1 && final(self).closed_durations().drop_last() == old(
                self,
            ).closed_durations(),
    {
        self.finish();
        self.names.push(name);
        self.started = Some(clock_now());
    }

    /// Finishes the open event, recording its elapsed time; a no-op when no
    /// event is open, so a second `finish` in a row changes nothing.
    pub fn finish(&mut self) -> (r: &Self)
        requires
            old(self).wf(),
        ensures
            final(self).wf(),
            !final(self).is_open(),
            final(self).event_names() == old(self).event_names(),
            old(self).is_open() ==> final(self).closed_durations().len() == old(
                self,
            ).closed_durations().len() + 1 && final(self).closed_durations().drop_last() == old(
                self,
            ).closed_durations(),
            !old(self).is_open() ==> *final(self) == *old(self),
            *r == *final(self),
    {
        match &self.started {
            Some(st) => {
                let d = nanos_since(st);
                self.durations.push(d);
                self.started = None;
                proof {
                    assert(self.closed_durations().drop_last() =~= old(self).closed_durations());
                }
            },
            None => {},
        }
        self
    }

    /// Renders the report: one line per closed event, most expensive first,
    /// with truncated percentages of the total time, and a warning line when
    /// an event is still open.
    pub fn render(&self) -> (r: String)
        requires
            self.wf(),
        ensures
            r@ == spec_report(self.event_names(), self.closed_durations(), self.is_open()),
    {
        format_report(&self.names, &self.durations, self.started.is_some())
    }
}

impl Default for Timer {
    /// An empty timer, as `Timer::new` makes it.
    fn default() -> (t: Timer)
        ensures
            t.wf(),
            t.event_names() == Seq::<&'static str>::empty(),
            t.closed_durations() == Seq::<u64>::empty(),
            !t.is_open(),
    {
        Timer::new()
    }
}

} // verus!
