//! A transport over an embedded Ethernet driver.
use crate::platform::transport::{Transport, TransportError};
use vstd::prelude::*;

verus! {

/// The frame interface of an embedded Ethernet controller driver.
///
/// A verified implementation keeps, for the stack's proofs, the same records
/// as a `Transport`: the frames handed to it with its answers, and its reads
/// with their answers and buffer contents. An implementation written outside
/// Verus keeps the empty default records; the contracts below are then
/// assumed of it, as of any unverified code.
pub trait EmbeddedEthernetDriver {
    /// Every frame handed to `send_frame` so far, with the answer given.
    closed spec fn frames_sent(&self) -> Seq<(Seq<u8>, Result<(), TransportError>)> {
        Seq::empty()
    }

    /// Every call of `receive_frame` so far: the answer given and the
    /// buffer's contents afterwards.
    closed spec fn frames_received(&self) -> Seq<(Result<usize, TransportError>, Seq<u8>)> {
        Seq::empty()
    }

    fn send_frame(&mut self, data: &[u8]) -> (r: Result<(), TransportError>)
        ensures
            final(self).frames_sent() == old(self).frames_sent().push((data@, r)),
            final(self).frames_received() == old(self).frames_received(),
    ;

    fn receive_frame(&mut self, buffer: &mut [u8]) -> (r: Result<usize, TransportError>)
        ensures
            final(self).frames_received() == old(self).frames_received().push((r, final(buffer)@)),
            final(self).frames_sent() == old(self).frames_sent(),
            final(buffer)@.len() == old(buffer)@.len(),
    ;
}

pub struct EmbeddedEthernetAdapter<D: EmbeddedEthernetDriver> {
    driver: D,
}

impl<D: EmbeddedEthernetDriver> EmbeddedEthernetAdapter<D> {
    /// The driver the adapter owns.
    pub closed spec fn inner(&self) -> D {
        self.driver
    }

    pub fn new(driver: D) -> (a: Self)
        ensures
            a.inner() == driver,
    {
        Self { driver }
    }

    pub fn driver(&self) -> (d: &D)
        ensures
            *d == self.inner(),
    {
        &self.driver
    }

    pub fn driver_mut(&mut self) -> (d: &mut D)
        ensures
            *d == old(self).inner(),
            final(self).inner() == *final(d),
    {
        &mut self.driver
    }
}

/// The adapter's records are its driver's: each `send` hands the frame
/// unchanged to `send_frame` once and answers what the driver answered, and
/// each `receive` is one `receive_frame` into the same buffer.
impl<D: EmbeddedEthernetDriver> Transport for EmbeddedEthernetAdapter<D> {
    closed spec fn sends(&self) -> Seq<(Seq<u8>, Result<(), TransportError>)> {
        self.driver.frames_sent()
    }

    closed spec fn receives(&self) -> Seq<(Result<usize, TransportError>, Seq<u8>)> {
        self.driver.frames_received()
    }

    fn send(&mut self, data: &[u8]) -> (r: Result<(), TransportError>)
        ensures
            final(self).inner().frames_sent() == old(self).inner().frames_sent().push((data@, r)),
            final(self).inner().frames_received() == old(self).inner().frames_received(),
    {
        self.driver.send_frame(data)
    }

    fn receive(&mut self, buffer: &mut [u8]) -> (r: Result<usize, TransportError>)
        ensures
            final(self).inner().frames_received() == old(self).inner().frames_received().push(
                (r, final(buffer)@),
            ),
            final(self).inner().frames_sent() == old(self).inner().frames_sent(),
    {
        self.driver.receive_frame(buffer)
    }
}

} // verus!
