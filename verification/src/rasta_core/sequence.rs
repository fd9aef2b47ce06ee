//! Short path to the sequence-number handling.
pub use crate::rasta_core::sequencing::{SequenceHandler, SequenceResult};
