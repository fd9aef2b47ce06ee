//! Short path to the connection state machine.
pub use crate::rasta_core::connection_state_machine::{RastaState, StateMachine};
