//! A transport that accepts every frame and never delivers one, for tests
//! and for running a node with a single real channel.
use crate::platform::transport::{Transport, TransportError};
use vstd::prelude::*;

verus! {

pub struct MockTransport {
    handed: Ghost<Seq<(Seq<u8>, Result<(), TransportError>)>>,
    reads: Ghost<Seq<(Result<usize, TransportError>, Seq<u8>)>>,
}

impl MockTransport {
    pub fn new() -> (t: Self)
        ensures
            t.sends() == Seq::<(Seq<u8>, Result<(), TransportError>)>::empty(),
            t.receives() == Seq::<(Result<usize, TransportError>, Seq<u8>)>::empty(),
    {
        MockTransport { handed: Ghost(Seq::empty()), reads: Ghost(Seq::empty()) }
    }
}

impl Transport for MockTransport {
    closed spec fn sends(&self) -> Seq<(Seq<u8>, Result<(), TransportError>)> {
        self.handed@
    }

    closed spec fn receives(&self) -> Seq<(Result<usize, TransportError>, Seq<u8>)> {
        self.reads@
    }

    /// Accepts every frame.
    fn send(&mut self, data: &[u8]) -> (r: Result<(), TransportError>)
        ensures
            r is Ok,
    {
        self.handed = Ghost(self.handed@.push((data@, Ok(()))));
        Ok(())
    }

    /// Never delivers a frame; `buffer` is left as it was.
    fn receive(&mut self, buffer: &mut [u8]) -> (r: Result<usize, TransportError>)
        ensures
            r == Ok::<usize, TransportError>(0),
            final(buffer)@ == old(buffer)@,
    {
        self.reads = Ghost(self.reads@.push((Ok(0), buffer@)));
        Ok(0)
    }
}

} // verus!
