//! Short path to the redundancy layer.
pub use crate::rasta_core::redundancy_management::{
    RedundancyCheckCode, RedundancyConfig, RedundancyLayer,
};
