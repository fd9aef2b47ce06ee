//! The service that the railway signalling application uses.
pub mod api;
pub mod service_interface;
