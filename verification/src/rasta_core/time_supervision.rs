//! Supervision of the timestamps carried by received packets.
use vstd::prelude::*;

verus! {

/// Why a remote timestamp was refused.
#[derive(Debug, Clone, Copy, PartialEq, Eq, Structural)]
pub enum TimeSupervisionError {
    TimestampTooOld,
    TimestampTooFarInFuture,
}

/// Checks received timestamps against the local millisecond clock.
#[derive(Debug, Clone, Copy)]
pub struct TimeSupervisor {
    pub t_max_ms: u32,
    pub future_tolerance_ms: u32,
}

/// The distance from `from` forward to `to` on the 32-bit millisecond circle.
pub open spec fn forward_distance(from: u32, to: u32) -> int {
    (to - from) % 0x1_0000_0000
}

/// A remote timestamp lies in the past (or now) when it is less than half
/// the circle behind the local time.
pub open spec fn is_past(local_now_ms: u32, remote_timestamp_ms: u32) -> bool {
    forward_distance(remote_timestamp_ms, local_now_ms) < 0x8000_0000
}

/// What `validate` answers for a supervisor with the given limits.
pub open spec fn supervision_result(
    t_max_ms: u32,
    future_tolerance_ms: u32,
    local_now_ms: u32,
    remote_timestamp_ms: u32,
) -> Result<(), TimeSupervisionError> {
    if is_past(local_now_ms, remote_timestamp_ms) {
        if forward_distance(remote_timestamp_ms, local_now_ms) > t_max_ms {
            Err(TimeSupervisionError::TimestampTooOld)
        } else {
            Ok(())
        }
    } else if forward_distance(local_now_ms, remote_timestamp_ms) > future_tolerance_ms {
        Err(TimeSupervisionError::TimestampTooFarInFuture)
    } else {
        Ok(())
    }
}

impl TimeSupervisor {
    pub const DEFAULT_FUTURE_TOLERANCE_MS: u32 = 100;

    /// A supervisor that accepts timestamps up to `t_max_ms` old and up to
    /// the default tolerance in the future.
    pub fn new(t_max_ms: u32) -> (s: Self)
        ensures
            s.t_max_ms == t_max_ms,
            s.future_tolerance_ms == Self::DEFAULT_FUTURE_TOLERANCE_MS,
    {
        Self { t_max_ms, future_tolerance_ms: Self::DEFAULT_FUTURE_TOLERANCE_MS }
    }

    /// Checks a received timestamp against the local time; both wrap at
    /// 2^32 milliseconds.
    pub fn validate(&self, local_now_ms: u32, remote_timestamp_ms: u32) -> (r: Result<
        (),
        TimeSupervisionError,
    >)
        ensures
            r == supervision_result(
                self.t_max_ms,
                self.future_tolerance_ms,
                local_now_ms,
                remote_timestamp_ms,
            ),
    {
        let age = local_now_ms.wrapping_sub(remote_timestamp_ms);
        if age < 0x8000_0000 {
            if age > self.t_max_ms {
                return Err(TimeSupervisionError::TimestampTooOld);
            }
        } else {
            let future_offset = remote_timestamp_ms.wrapping_sub(local_now_ms);
            if future_offset > self.future_tolerance_ms {
                return Err(TimeSupervisionError::TimestampTooFarInFuture);
            }
        }
        Ok(())
    }
}

} // verus!
