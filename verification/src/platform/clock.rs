//! Platform-independent time source interface.
//!
//! The core only needs a millisecond value that increases monotonically
//! (wrapping at 2^32); adapters supply it on each target.
use vstd::prelude::*;

verus! {

pub trait Clock {
    fn now_ms(&self) -> u32;
}

} // verus!
