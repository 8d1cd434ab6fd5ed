//! A replicated key-value engine built on Multi-Paxos groups, as a verified library.
//!
//! Every decision the engine takes - how a proposal moves through the two Paxos
//! phases, how leaders are elected and give up leadership, how group membership
//! changes, how payloads and configuration files are laid out in bytes - is a
//! function on plain values whose contract says what it returns. The program
//! around the library performs the network, disk and timer work that those
//! decisions ask for.

pub mod cluster;
pub mod common;
pub mod console;
pub mod engine;
pub mod group;
pub mod paxos;
pub mod server;
