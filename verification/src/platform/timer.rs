//! Platform-independent timer interface. OS timers, hardware timers and test
//! timers are supplied by adapters.
use vstd::prelude::*;

verus! {

/// A one-shot timer. Whether a running timer has expired depends on time
/// and is the implementation's affair; a timer that is not running never
/// reports expiry. A verified implementation defines `is_running` and
/// `duration` over its state and proves the contracts below; one written
/// outside Verus keeps the defaults, and the contracts are then assumed of
/// it, as of any unverified code.
pub trait Timer {
    /// Whether the timer has been started and not stopped since.
    closed spec fn is_running(&self) -> bool {
        false
    }

    /// The duration of the last start, in milliseconds.
    closed spec fn duration(&self) -> nat {
        0
    }

    fn start(&mut self, duration_ms: u32)
        ensures
            final(self).is_running(),
            final(self).duration() == duration_ms,
    ;

    fn expired(&self) -> (e: bool)
        ensures
            !self.is_running() ==> !e,
    ;

    fn stop(&mut self)
        ensures
            !final(self).is_running(),
    ;
}

} // verus!
