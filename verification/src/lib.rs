//! A RaSTA (Rail Safe Transport Application) protocol stack whose protocol
//! logic is specified and proved with Verus.
pub mod adapters;
pub mod application;
pub mod platform;
pub mod rasta_core;
