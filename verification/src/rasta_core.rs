//! The platform-independent protocol core: the Safety and Retransmission
//! Layer and the Redundancy Layer.
pub mod byte_order;
pub mod connection;
pub mod connection_state_machine;
pub mod heartbeat;
pub mod pdu;
pub mod redundancy_management;
pub mod retransmission;
pub mod safety_code;
pub mod sequencing;
pub mod time_supervision;

pub mod packet;
pub mod redundancy;
pub mod sequence;
pub mod state_machine;
