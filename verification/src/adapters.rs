//! Platform-dependent implementations of the platform interfaces.
pub mod embedded_ethernet;
pub mod mock_transport;
pub mod standard_clock;
pub mod standard_timer;
