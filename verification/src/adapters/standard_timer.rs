//! A timer on the operating system's monotonic clock.
use crate::platform::timer::Timer;
use std::time::{Duration, Instant};
use vstd::prelude::*;

verus! {

#[verifier::external_type_specification]
#[verifier::external_body]
pub struct ExInstant(std::time::Instant);

/// Calls `std::time::Instant::now`; the result is the current time, of
/// which nothing is stated.
#[verifier::external_body]
fn instant_now() -> Instant {
    Instant::now()
}

/// Calls `std::time::Instant::elapsed`; the result depends on the time of
/// the call, so nothing is stated of it.
#[verifier::external_body]
fn instant_elapsed(start: &Instant) -> Duration {
    start.elapsed()
}

/// Calls `std::time::Duration::as_millis`. `Duration` is opaque here, so
/// nothing is stated of the number returned.
#[verifier::external_body]
pub(crate) fn duration_as_millis(d: &Duration) -> u128 {
    d.as_millis()
}

/// Whether a deadline `duration_ms` milliseconds after a start has passed
/// once `elapsed_ms` milliseconds have gone by.
pub fn deadline_passed(elapsed_ms: u128, duration_ms: u64) -> (b: bool)
    ensures
        b == (elapsed_ms >= duration_ms),
{
    elapsed_ms >= duration_ms as u128
}

pub struct StdTimer {
    start_time: Option<Instant>,
    duration_ms: u64,
}

impl StdTimer {
    pub fn new() -> (t: Self)
        ensures
            !t.is_running(),
            t.duration() == 0,
    {
        Self { start_time: None, duration_ms: 0 }
    }
}

impl Default for StdTimer {
    fn default() -> (t: Self)
        ensures
            !t.is_running(),
            t.duration() == 0,
    {
        Self::new()
    }
}

impl Timer for StdTimer {
    /// Whether the timer has been started and not stopped since.
    closed spec fn is_running(&self) -> bool {
        self.start_time is Some
    }

    /// The duration of the last start, in milliseconds.
    closed spec fn duration(&self) -> nat {
        self.duration_ms as nat
    }

    fn start(&mut self, duration_ms: u32) {
        self.start_time = Some(instant_now());
        self.duration_ms = duration_ms as u64;
    }

    /// A stopped timer never expires; a running one has expired when the
    /// milliseconds elapsed since its start reach its duration
    /// (`deadline_passed`), so one started with a duration of zero has
    /// expired at once.
    fn expired(&self) -> (e: bool)
        ensures
            self.is_running() && self.duration() == 0 ==> e,
    {
        match &self.start_time {
            Some(start) => {
                let elapsed = instant_elapsed(start);
                deadline_passed(duration_as_millis(&elapsed), self.duration_ms)
            },
            None => false,
        }
    }

    fn stop(&mut self)
        ensures
            final(self).duration() == old(self).duration(),
    {
        self.start_time = None;
    }
}

} // verus!
