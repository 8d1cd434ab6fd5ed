//! Point-in-time snapshots of the layers, and the reports made from them.

use crate::cluster::info::{GroupInfo, KvStoreInfo, RemoteReplicaInfo, ReplicaInfo, StoreInfo};
use crate::common::metrics::MetricsSnapshot;
use vstd::prelude::*;

verus! {

#[derive(Debug)]
pub struct StoreSnapshot {
    pub store_id: u64,
    pub listen_addr: Option<String>,
    pub groups: Vec<GroupSnapshot>,
}

impl StoreSnapshot {
    /// `info` reports this snapshot.
    pub open spec fn reported_by(&self, info: StoreInfo) -> bool {
        &&& info.store_id == self.store_id
        &&& match (info.listen_addr, self.listen_addr) {
            (Some(a), Some(b)) => a@ == b@,
            (None, None) => true,
            _ => false,
        }
        &&& info.groups.len() == self.groups.len()
        &&& forall|i: int|
            0 <= i < self.groups.len() ==> (#[trigger] self.groups[i]).reported_by(info.groups[i])
    }

    /// The report of this snapshot.
    pub fn report_info(&self) -> (info: StoreInfo)
        ensures
            self.reported_by(info),
    {
        let mut groups: Vec<GroupInfo> = Vec::new();
        let mut i: usize = 0;
        while i < self.groups.len()
            invariant
                i <= self.groups.len(),
                groups.len() == i,
                forall|k: int|
                    0 <= k < i ==> (#[trigger] self.groups[k]).reported_by(groups[k]),
            decreases self.groups.len() - i,
        {
            groups.push(self.groups[i].report_info());
            i = i + 1;
        }
        StoreInfo {
            store_id: self.store_id,
            listen_addr: match &self.listen_addr {
                Some(a) => Some(a.clone()),
                None => None,
            },
            groups,
        }
    }
}

#[derive(Debug)]
pub struct GroupSnapshot {
    pub group_id: u64,
    pub leader_id: u64,
    pub force_classic: bool,
    pub local_replica: LocalReplicaSnapshot,
    pub remotes: Vec<RemoteSnapshot>,
}

impl GroupSnapshot {
    /// `info` reports this snapshot.
    pub open spec fn reported_by(&self, info: GroupInfo) -> bool {
        &&& info.group_id == self.group_id
        &&& info.leader_id == self.leader_id
        &&& self.local_replica.reported_by(info.local_replica)
        &&& info.remotes.len() == self.remotes.len()
        &&& forall|i: int|
            0 <= i < self.remotes.len() ==> (#[trigger] self.remotes[i]).reported_by(
                info.remotes[i],
            )
    }

    /// The report of this snapshot.
    pub fn report_info(&self) -> (info: GroupInfo)
        ensures
            self.reported_by(info),
    {
        let mut remotes: Vec<RemoteReplicaInfo> = Vec::new();
        let mut i: usize = 0;
        while i < self.remotes.len()
            invariant
                i <= self.remotes.len(),
                remotes.len() == i,
                forall|k: int|
                    0 <= k < i ==> (#[trigger] self.remotes[k]).reported_by(remotes[k]),
            decreases self.remotes.len() - i,
        {
            remotes.push(self.remotes[i].report_info());
            i = i + 1;
        }
        GroupInfo {
            group_id: self.group_id,
            local_replica: self.local_replica.report_info(),
            leader_id: self.leader_id,
            remotes,
        }
    }
}

#[derive(Debug)]
pub struct LocalReplicaSnapshot {
    pub id: u64,
    /// `"leader"` or `"follower"`.
    pub role: &'static str,
    pub voting: bool,
    pub kv_store: KvStoreSnapshot,
}

impl LocalReplicaSnapshot {
    /// `info` reports this snapshot.
    pub open spec fn reported_by(&self, info: ReplicaInfo) -> bool {
        &&& info.id == self.id
        &&& info.role@ == self.role@
        &&& info.voting == self.voting
        &&& info.kv_store.key_count == self.kv_store.key_count
    }

    /// The report of this snapshot.
    pub fn report_info(&self) -> (info: ReplicaInfo)
        ensures
            self.reported_by(info),
    {
        ReplicaInfo {
            id: self.id,
            role: self.role.to_owned(),
            voting: self.voting,
            kv_store: KvStoreInfo { key_count: self.kv_store.key_count },
        }
    }
}

#[derive(Clone, Copy, Debug, PartialEq, Eq, Structural)]
pub struct KvStoreSnapshot {
    pub key_count: u64,
}

#[derive(Debug)]
pub struct RemoteSnapshot {
    pub id: u64,
    pub endpoint: String,
    pub voting: bool,
    pub metrics: MetricsSnapshot,
}

impl RemoteSnapshot {
    /// `info` reports this snapshot.
    pub open spec fn reported_by(&self, info: RemoteReplicaInfo) -> bool {
        &&& info.replica_id == self.id
        &&& info.endpoint@ == self.endpoint@
    }

    /// The report of this snapshot.
    pub fn report_info(&self) -> (info: RemoteReplicaInfo)
        ensures
            self.reported_by(info),
    {
        RemoteReplicaInfo { replica_id: self.id, endpoint: self.endpoint.clone() }
    }
}

/// A report has every group of the store and every peer of each group, in the
/// order of the snapshot.
pub proof fn report_shows_every_member(s: StoreSnapshot, info: StoreInfo, i: int, j: int)
    requires
        s.reported_by(info),
        0 <= i < s.groups@.len(),
    ensures
        info.groups@.len() == s.groups@.len(),
        info.groups@[i].group_id == s.groups@[i].group_id,
        info.groups@[i].leader_id == s.groups@[i].leader_id,
        info.groups@[i].local_replica.id == s.groups@[i].local_replica.id,
        info.groups@[i].local_replica.role@ == s.groups@[i].local_replica.role@,
        info.groups@[i].local_replica.kv_store.key_count
            == s.groups@[i].local_replica.kv_store.key_count,
        info.groups@[i].remotes@.len() == s.groups@[i].remotes@.len(),
        0 <= j < s.groups@[i].remotes@.len() ==> {
            &&& info.groups@[i].remotes@[j].replica_id == s.groups@[i].remotes@[j].id
            &&& info.groups@[i].remotes@[j].endpoint@ == s.groups@[i].remotes@[j].endpoint@
        },
{
    assert(s.groups[i].reported_by(info.groups[i]));
    if 0 <= j < s.groups@[i].remotes@.len() {
        assert(s.groups[i].remotes[j].reported_by(info.groups[i].remotes[j]));
    }
}

} // verus!
