//! The replication layer: groups, elections, membership, status and the stores
//! that own them.

pub mod agreement;
pub mod coalescer;
pub mod election;
pub mod group;
pub mod group_config;
pub mod group_join;
pub mod group_maintenance;
pub mod group_status;
pub mod group_table;
pub mod health;
pub mod health_info;
pub mod info;
pub mod inflight;
pub mod kv_server;
pub mod kv_store;
pub mod local_replica;
pub mod phases;
pub mod proposal;
pub mod proposer;
pub mod px_kv_store;
pub mod quorum;
pub mod remote_replica;
pub mod repair;
pub mod replica;
pub mod shutdown;
pub mod snapshot;
pub mod status;
pub mod store_status;
pub mod watermarks;
