//! A clock on the operating system's wall-clock time.
use crate::adapters::standard_timer::duration_as_millis;
use crate::platform::clock::Clock;
use std::time::{Duration, SystemTime};
use vstd::prelude::*;

verus! {

#[verifier::external_type_specification]
#[verifier::external_body]
pub struct ExSystemTime(std::time::SystemTime);

/// Calls `std::time::SystemTime::now`; nothing is stated of the time.
#[verifier::external_body]
fn system_time_now() -> SystemTime {
    SystemTime::now()
}

/// Calls `std::time::SystemTime::duration_since` with the Unix epoch, and
/// takes a zero duration for a time before the epoch (the error case).
/// Nothing is stated of the result.
#[verifier::external_body]
fn duration_since_unix_epoch(t: &SystemTime) -> Duration {
    t.duration_since(std::time::UNIX_EPOCH).unwrap_or_default()
}

/// The reading of a 32-bit millisecond clock after `ms` milliseconds: the
/// count wraps at 2^32.
pub fn clock_reading_of_millis(ms: u128) -> (r: u32)
    ensures
        r as int == ms % 0x1_0000_0000,
{
    (ms % 0x1_0000_0000) as u32
}

pub struct StdClock;

impl Clock for StdClock {
    /// Milliseconds since the Unix epoch, modulo 2^32.
    fn now_ms(&self) -> u32 {
        let now = system_time_now();
        let since = duration_since_unix_epoch(&now);
        clock_reading_of_millis(duration_as_millis(&since))
    }
}

} // verus!
