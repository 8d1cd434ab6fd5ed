//! The server: command line, startup, the registry of stores and the
//! management of stores, groups and members.

pub mod cli;
pub mod engine_collector;
pub mod mgmt_api;
pub mod rebuild;
pub mod startup;
pub mod store_registry;
pub mod store_table;
