//! What the management interface tells about stores, groups and replicas.

use vstd::prelude::*;

verus! {

#[derive(Debug)]
pub struct StoreInfo {
    pub store_id: u64,
    pub listen_addr: Option<String>,
    pub groups: Vec<GroupInfo>,
}

#[derive(Debug)]
pub struct GroupInfo {
    pub group_id: u64,
    pub local_replica: ReplicaInfo,
    pub leader_id: u64,
    pub remotes: Vec<RemoteReplicaInfo>,
}

#[derive(Debug)]
pub struct ReplicaInfo {
    pub id: u64,
    pub role: String,
    pub voting: bool,
    pub kv_store: KvStoreInfo,
}

#[derive(Clone, Copy, Debug, PartialEq, Eq, Structural)]
pub struct KvStoreInfo {
    pub key_count: u64,
}

#[derive(Debug)]
pub struct RemoteReplicaInfo {
    pub replica_id: u64,
    pub endpoint: String,
}

} // verus!
