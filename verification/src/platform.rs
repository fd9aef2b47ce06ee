//! Abstract platform interfaces that the protocol core depends on.
pub mod clock;
pub mod logger;
pub mod synchronization;
pub mod timer;
pub mod transport;
