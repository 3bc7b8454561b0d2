//! Deterministic rollback-networked game simulation core.
//!
//! Each peer runs the same fixed-order, integer-only simulation; late remote
//! inputs trigger a bounded re-simulation instead of a pause, and a per-tick
//! checksum over the whole rollback-tracked state detects divergence.

pub mod constants;
pub mod input;
pub mod components;
pub mod player;
pub mod bomb;
pub mod checksum;
pub mod rollback;
pub mod session;
