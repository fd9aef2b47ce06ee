//! Platform-independent transport interface.
use vstd::prelude::*;

verus! {

/// Failures reported by a transport or by the layers that frame data for it.
#[derive(Debug, Clone, Copy, PartialEq, Eq, Structural)]
pub enum TransportError {
    BufferTooSmall,
    SendFailed,
    ReceiveFailed,
    NotConnected,
}

/// A channel that moves whole frames: UDP, TCP, an Ethernet driver, a test
/// double. Implemented by platform adapters and by users of the stack.
///
/// A verified implementation keeps, for the stack's proofs, a record of the
/// frames handed to it (with what it answered) and of the reads made on it
/// (with what it answered and the buffer afterwards), and proves that each
/// call adds one entry. What a channel answers is its own affair. An
/// implementation written outside Verus keeps the empty default records;
/// the contracts below are then assumed of it, as of any unverified code.
pub trait Transport {
    /// Every frame handed to `send` so far, with the answer given.
    closed spec fn sends(&self) -> Seq<(Seq<u8>, Result<(), TransportError>)> {
        Seq::empty()
    }

    /// Every call of `receive` so far: the answer given and the buffer's
    /// contents afterwards.
    closed spec fn receives(&self) -> Seq<(Result<usize, TransportError>, Seq<u8>)> {
        Seq::empty()
    }

    /// Hands one frame to the channel.
    fn send(&mut self, data: &[u8]) -> (r: Result<(), TransportError>)
        ensures
            final(self).sends() == old(self).sends().push((data@, r)),
            final(self).receives() == old(self).receives(),
    ;

    /// Copies one received frame into `buffer` and returns its length, or 0
    /// when nothing has arrived.
    fn receive(&mut self, buffer: &mut [u8]) -> (r: Result<usize, TransportError>)
        ensures
            final(self).receives() == old(self).receives().push((r, final(buffer)@)),
            final(self).sends() == old(self).sends(),
            final(buffer)@.len() == old(buffer)@.len(),
    ;
}

} // verus!
