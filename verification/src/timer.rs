//! Elapsed-time bookkeeping for a game: a monotonic start/stop pair. Only
//! the structure (started / ended) is reasoned about; the clock readings
//! themselves come from `std::time` and stay opaque.

use vstd::prelude::*;
use std::time::{Duration, Instant};

verus! {

#[verifier::external_type_specification]
#[verifier::external_body]
pub struct ExInstant(Instant);

/// Relies on `std::time::Instant::now` for the current monotonic time.
#[verifier::external_body]
fn instant_now() -> Instant {
    Instant::now()
}

/// Relies on `std::time::Instant::elapsed` for the time since `t`.
#[verifier::external_body]
fn instant_elapsed(t: &Instant) -> Duration {
    t.elapsed()
}

/// Relies on `std::time::Instant::duration_since`: the time from `earlier`
/// to `later`, or zero when `earlier` is the later of the two.
#[verifier::external_body]
fn instant_duration_since(later: &Instant, earlier: &Instant) -> Duration {
    later.duration_since(*earlier)
}

/// Relies on `core::time::Duration::ZERO` being the zero-length duration.
#[verifier::external_body]
fn duration_zero() -> Duration {
    Duration::ZERO
}

/// A stopwatch: not started, running, or stopped.
pub struct Timer {
    pub start_time: Option<Instant>,
    pub end_time: Option<Instant>,
}

impl Default for Timer {
    fn default() -> (t: Timer)
        ensures
            t.start_time is None,
            t.end_time is None,
    {
        Timer { start_time: None, end_time: None }
    }
}

impl Timer {
    pub fn reset(&mut self)
        ensures
            final(self).start_time is None,
            final(self).end_time is None,
    {
        self.start_time = None;
        self.end_time = None;
    }

    pub fn start(&mut self)
        ensures
            final(self).start_time is Some,
            final(self).end_time is None,
    {
        self.start_time = Some(instant_now());
        self.end_time = None;
    }

    pub fn end(&mut self)
        requires
            old(self).start_time is Some,
        ensures
            final(self).start_time == old(self).start_time,
            final(self).end_time is Some,
    {
        self.end_time = Some(instant_now());
    }

    pub fn is_started(&self) -> (r: bool)
        ensures
            r == (self.start_time is Some),
    {
        self.start_time.is_some()
    }

    pub fn is_ended(&self) -> (r: bool)
        ensures
            r == (self.end_time is Some),
    {
        self.end_time.is_some()
    }

    /// Time from start to stop, time from start until now while running, or
    /// zero when the timer was never started. The reading is a clock value,
    /// so nothing further is specified of it.
    pub fn elapsed_duration(&self) -> Duration {
        match (&self.start_time, &self.end_time) {
            (Some(start_time), None) => instant_elapsed(start_time),
            (Some(start_time), Some(end_time)) => instant_duration_since(end_time, start_time),
            (None, _) => duration_zero(),
        }
    }
}

} // verus!
