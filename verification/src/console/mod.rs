//! The console: an operator's view of racks, nodes and servers, and of the
//! stores, groups and replicas that the servers host.

pub mod config;
pub mod expand;
pub mod health;
pub mod hex_text;
pub mod kv;
pub mod lifecycle;
pub mod mgmt;
pub mod openapi;
pub mod plan;
pub mod replicas;
pub mod reports;
pub mod reset;
pub mod state;
