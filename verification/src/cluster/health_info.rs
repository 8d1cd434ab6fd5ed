//! What the health interface tells about stores, groups and replicas.

use vstd::prelude::*;

verus! {

#[derive(Debug)]
pub struct HealthStoreInfo {
    pub store_id: u64,
    pub status: String,
    pub messages: Vec<String>,
    pub groups: Vec<HealthGroupInfo>,
}

#[derive(Debug)]
pub struct HealthGroupInfo {
    pub group_id: u64,
    pub status: String,
    pub messages: Vec<String>,
    pub local_replica: HealthReplicaInfo,
    pub remotes: Vec<HealthRemoteInfo>,
}

#[derive(Debug)]
pub struct HealthReplicaInfo {
    pub id: u64,
    pub role: String,
    pub status: String,
    pub messages: Vec<String>,
}

#[derive(Debug)]
pub struct HealthRemoteInfo {
    pub id: u64,
    pub endpoint: String,
    pub status: String,
    pub messages: Vec<String>,
}

} // verus!
