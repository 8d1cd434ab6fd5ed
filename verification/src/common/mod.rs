//! Pieces shared by all layers: text, byte payloads, configuration and counters.

pub mod api;
pub mod config;
pub mod counting;
pub mod metrics;
pub mod path;
pub mod payload;
pub mod scan;
pub mod text;
pub mod wire;
