//! A client's view of a group: who its members are, where they listen, and
//! which of them leads.

pub mod group;
pub mod types;
