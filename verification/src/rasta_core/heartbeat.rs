//! When an idle connection sends its next heartbeat.
use vstd::prelude::*;

verus! {

/// The milliseconds from `from` forward to `to` on the 32-bit clock circle.
pub open spec fn elapsed_ms(from: u32, to: u32) -> int {
    (to - from) % 0x1_0000_0000
}

#[derive(Debug, Clone, Copy)]
pub struct Heartbeat {
    pub interval_ms: u32,
    pub last_sent_ms: u32,
}

impl Heartbeat {
    pub fn new(interval_ms: u32) -> (h: Self)
        ensures
            h.interval_ms == interval_ms,
            h.last_sent_ms == 0,
    {
        Heartbeat { interval_ms, last_sent_ms: 0 }
    }

    /// A heartbeat is due once the interval has passed since the last packet
    /// was sent.
    pub fn is_due(&self, now_ms: u32) -> (due: bool)
        ensures
            due == (elapsed_ms(self.last_sent_ms, now_ms) >= self.interval_ms),
    {
        now_ms.wrapping_sub(self.last_sent_ms) >= self.interval_ms
    }

    /// Records that a packet was sent at `now_ms`.
    pub fn mark_sent(&mut self, now_ms: u32)
        ensures
            final(self).interval_ms == old(self).interval_ms,
            final(self).last_sent_ms == now_ms,
    {
        self.last_sent_ms = now_ms;
    }
}

/// Right after a packet is sent, no heartbeat is due unless the interval is 0.
pub proof fn lemma_not_due_right_after_send(h: Heartbeat, now_ms: u32)
    requires
        h.last_sent_ms == now_ms,
        h.interval_ms > 0,
    ensures
        !(elapsed_ms(h.last_sent_ms, now_ms) >= h.interval_ms),
{
}

} // verus!
