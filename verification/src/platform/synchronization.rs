//! Abstract critical-section interface. The core does not depend on an
//! operating system; targets that need locking provide an implementation.
use vstd::prelude::*;

verus! {

pub trait CriticalSection {
    fn enter(&mut self);

    fn exit(&mut self);
}

} // verus!
