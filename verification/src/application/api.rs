//! The former name of the service interface.
pub use crate::application::service_interface::{ConnectionStatus, RastaApi, RastaService};
