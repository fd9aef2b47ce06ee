//! Short path to the packet definitions.
pub use crate::rasta_core::pdu::{Packet, PacketType, PduError, MAX_PAYLOAD, PACKET_HEADER_SIZE};
