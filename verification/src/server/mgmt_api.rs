//! Management of stores, groups and members.
//!
//! Every request is answered with what it asked for, or with a status code and
//! an error text. A request that is refused changes nothing.

use crate::cluster::group::{entry_at, PxGroup, RemoteReplicaKind};
use crate::cluster::group_config::{members_view, PxGroupMember};
use crate::cluster::info::RemoteReplicaInfo;
use crate::cluster::kv_server::{endpoints_set, BindOutcome};
use crate::cluster::local_replica::{PxLocalReplica, PxLocalReplicaRole};
use crate::cluster::px_kv_store::{at_endpoint, PxKvStore};
use crate::cluster::status::{GroupStatus, StatusLevel, StoreStatus};
use crate::cluster::store_status::{countable, lists_groups, summary_of, GroupSummary};
use crate::common::api::ApiError;
use crate::common::text::{concat2, concat3, dec, decimal, texts};
use crate::server::rebuild::{
    epoch_lasts, has_vote, ids_fit, member_for, members_info, members_of, new_members, peers_info,
    peers_of, peers_view, rebuild_with, rebuild_without,
    rebuild_without_a_member_keeps_the_others, rebuilt_with, rebuilt_without, PeerView,
};
use crate::server::store_registry::KvStoreRegistry;
use vstd::prelude::*;

verus! {

/// Health of the server with its stores.
#[derive(Debug)]
pub struct HealthResponse {
    pub status: String,
    pub messages: Vec<String>,
    pub stores: Vec<StoreStatus>,
}

/// What a listing of stores says of each of them.
#[derive(Debug)]
pub struct StoreSummary {
    pub store_id: u64,
    pub listen_addr: Option<String>,
    pub group_count: usize,
}

/// A store with its groups.
#[derive(Debug)]
pub struct StoreDetail {
    pub store_id: u64,
    pub listen_addr: Option<String>,
    pub groups: Vec<GroupSummary>,
}

/// A request for a new store. With the ids of a group and its replica the store
/// starts with that group.
#[derive(Clone, Copy, Debug, PartialEq, Eq, Structural)]
pub struct AddStoreRequest {
    pub store_id: u64,
    pub group_id: Option<u64>,
    pub replica_id: Option<u64>,
    pub port: Option<u16>,
}

#[derive(Clone, Copy, Debug, PartialEq, Eq, Structural)]
pub enum AddGroupInitialRole {
    Leader,
    Follower,
}

/// A request for a new group.
#[derive(Clone, Copy, Debug, PartialEq, Eq, Structural)]
pub struct AddGroupRequest {
    pub group_id: u64,
    pub replica_id: u64,
    /// Leader where nothing else is asked for.
    pub initial_role: Option<AddGroupInitialRole>,
    /// Whether the group's elections start at once, which they do where nothing
    /// else is asked for. A group that is about to get members must not elect
    /// itself before.
    pub start_election: Option<bool>,
}

/// Error of a request for a store that there is not.
pub open spec fn store_missing(sid: u64) -> Seq<char> {
    "store "@ + dec(sid as nat) + " not found"@
}

/// Error of a request for a group that there is not.
pub open spec fn group_missing(gid: u64, sid: u64) -> Seq<char> {
    "group "@ + dec(gid as nat) + " not found in store "@ + dec(sid as nat)
}

fn no_store(sid: u64) -> (e: ApiError)
    ensures
        e.says(404, store_missing(sid)),
{
    let id: String = decimal(sid);
    ApiError { status: 404, error: concat3("store ", id.as_str(), " not found") }
}

fn no_group(gid: u64, sid: u64) -> (e: ApiError)
    ensures
        e.says(404, group_missing(gid, sid)),
{
    let g: String = decimal(gid);
    let s: String = decimal(sid);
    let front: String = concat3("group ", g.as_str(), " not found in store ");
    ApiError { status: 404, error: concat2(front.as_str(), s.as_str()) }
}

/// Two addresses, or none of them.
pub open spec fn same_addr(a: Option<String>, b: Option<String>) -> bool {
    match (a, b) {
        (Some(x), Some(y)) => x@ == y@,
        (None, None) => true,
        _ => false,
    }
}

fn copy_addr(a: &Option<String>) -> (r: Option<String>)
    ensures
        same_addr(r, *a),
{
    match a {
        Some(x) => Some(x.clone()),
        None => None,
    }
}

/// `b` is the store `a` with the groups `groups`.
pub open spec fn regrouped(a: PxKvStore, b: PxKvStore, groups: Map<u64, PxGroup>) -> bool {
    b == (PxKvStore { groups: b.groups, ..a }) && b.view_groups() == groups
}

/// Of all stores only `sid` changed, and of it only the groups.
pub open spec fn store_regrouped(
    before: Map<u64, PxKvStore>,
    after: Map<u64, PxKvStore>,
    sid: u64,
    groups: Map<u64, PxGroup>,
) -> bool {
    &&& after.dom() == before.dom()
    &&& forall|id: u64| #[trigger]
        after.contains_key(id) ==> regrouped(
            before[id],
            after[id],
            if id == sid {
                groups
            } else {
                before[id].view_groups()
            },
        )
}

/// No store changed.
pub open spec fn unchanged(before: Map<u64, PxKvStore>, after: Map<u64, PxKvStore>) -> bool {
    &&& after.dom() == before.dom()
    &&& forall|id: u64| #[trigger]
        after.contains_key(id) ==> regrouped(before[id], after[id], before[id].view_groups())
}

/// The group that a store puts in place when `g` is added to it.
pub open spec fn placed(store: PxKvStore, g: PxGroup) -> PxGroup {
    match store.bound_addr {
        Some(a) => at_endpoint(g, a),
        None => g,
    }
}

/// The store `sid` has the group `gid`.
pub open spec fn has_group(stores: Map<u64, PxKvStore>, sid: u64, gid: u64) -> bool {
    stores.contains_key(sid) && stores[sid].view_groups().contains_key(gid)
}

/// The error of a request that names a store and a group, if one of them is
/// missing.
pub open spec fn missing(stores: Map<u64, PxKvStore>, sid: u64, gid: u64) -> Option<Seq<char>> {
    if !stores.contains_key(sid) {
        Some(store_missing(sid))
    } else if !stores[sid].view_groups().contains_key(gid) {
        Some(group_missing(gid, sid))
    } else {
        None
    }
}

/// `ids` lists the stores, each once.
pub open spec fn lists_stores(ids: Seq<u64>, stores: Map<u64, PxKvStore>) -> bool {
    &&& ids.no_duplicates()
    &&& forall|id: u64| #[trigger] ids.contains(id) == stores.contains_key(id)
}

/// The groups of every store can be counted.
pub open spec fn all_countable(stores: Map<u64, PxKvStore>) -> bool {
    forall|id: u64| #[trigger] stores.contains_key(id) ==> countable(stores[id].view_groups())
}

/// `s` is the status of all stores, in any order.
pub open spec fn statuses_of(s: Seq<StoreStatus>, stores: Map<u64, PxKvStore>) -> bool {
    &&& lists_stores(s.map_values(|x: StoreStatus| x.store_id), stores)
    &&& forall|i: int|
        0 <= i < s.len() ==> stores[s[i].store_id].reported_by(#[trigger] s[i])
}

/// The worst level among stores.
pub open spec fn worst_store_level(s: Seq<StoreStatus>) -> StatusLevel
    decreases s.len(),
{
    if s.len() == 0 {
        StatusLevel::Healthy
    } else {
        StatusLevel::worst_of(worst_store_level(s.drop_last()), s.last().status)
    }
}

/// A member that is removed leaves this to do.
#[derive(Clone, Copy, Debug, PartialEq, Eq, Structural)]
pub struct RemovalFollowUp {
    /// Write the vote of the local replica, which leads now, to its log.
    pub persist_vote: bool,
    /// The leader was removed: let the local replica vote again at once.
    pub clear_vote_lockout: bool,
}

/// The local replica of a group without the member `rid`. One that is alone
/// leads in its term; one whose leader was removed follows nobody.
pub open spec fn settled(prior: PxGroup, g: PxGroup, rid: u64) -> PxGroup {
    if g.cached_quorum == 1 {
        PxGroup {
            local_replica: PxLocalReplica {
                role: PxLocalReplicaRole::Leader,
                believed_leader: Some(g.local_replica.id),
                ..g.local_replica
            },
            proposing_term: prior.local_replica.current_term,
            ..g
        }
    } else if prior.spec_leader_id() == rid {
        PxGroup {
            local_replica: PxLocalReplica {
                role: PxLocalReplicaRole::Follower,
                believed_leader: None,
                lease_read_until_ms: 0,
                ..g.local_replica
            },
            ..g
        }
    } else {
        g
    }
}

/// The peers for `gid` that a topology names, other than `local_id`: one for
/// every group with this id in a store with an address.
pub open spec fn topology_peers(stores: Seq<StoreStatus>, gid: u64, local_id: u64) -> Seq<PeerView>
    decreases stores.len(),
{
    if stores.len() == 0 {
        Seq::empty()
    } else {
        topology_peers(stores.drop_last(), gid, local_id) + store_peers(
            stores.last(),
            stores.last().groups@,
            gid,
            local_id,
        )
    }
}

/// The peers for `gid` among `groups`, which are of the store `s`.
pub open spec fn store_peers(
    s: StoreStatus,
    groups: Seq<GroupStatus>,
    gid: u64,
    local_id: u64,
) -> Seq<PeerView>
    decreases groups.len(),
{
    if groups.len() == 0 || s.listen_addr is None {
        Seq::empty()
    } else {
        let front = store_peers(s, groups.drop_last(), gid, local_id);
        if groups.last().group_id == gid && groups.last().local_replica_id != local_id {
            front.push((groups.last().local_replica_id, s.listen_addr->0@))
        } else {
            front
        }
    }
}

/// The peers for `gid` that a topology names, other than `local_id`.
pub fn peers_from_topology(topology: &Vec<StoreStatus>, gid: u64, local_id: u64) -> (r: Vec<
    RemoteReplicaInfo,
>)
    ensures
        peers_view(r@) == topology_peers(topology@, gid, local_id),
{
    let mut r: Vec<RemoteReplicaInfo> = Vec::new();
    let mut i: usize = 0;
    proof {
        assert(topology@.take(0) =~= Seq::empty());
        assert(peers_view(r@) =~= Seq::empty());
    }
    while i < topology.len()
        invariant
            i <= topology.len(),
            peers_view(r@) == topology_peers(topology@.take(i as int), gid, local_id),
        decreases topology.len() - i,
    {
        let store = &topology[i];
        let ghost base = peers_view(r@);
        proof {
            assert(topology@.take(i + 1).drop_last() =~= topology@.take(i as int));
            assert(topology@.take(i + 1).last() == topology@[i as int]);
        }
        if let Some(addr) = &store.listen_addr {
            let mut j: usize = 0;
            proof {
                assert(store.groups@.take(0) =~= Seq::empty());
                assert(base + Seq::<PeerView>::empty() =~= base);
            }
            while j < store.groups.len()
                invariant
                    j <= store.groups.len(),
                    store.listen_addr == Some(*addr),
                    peers_view(r@) == base + store_peers(
                        *store,
                        store.groups@.take(j as int),
                        gid,
                        local_id,
                    ),
                decreases store.groups.len() - j,
            {
                let g = &store.groups[j];
                let ghost before = r@;
                proof {
                    assert(store.groups@.take(j + 1).drop_last() =~= store.groups@.take(j as int));
                    assert(store.groups@.take(j + 1).last() == store.groups@[j as int]);
                }
                if g.group_id == gid && g.local_replica_id != local_id {
                    r.push(
                        RemoteReplicaInfo {
                            replica_id: g.local_replica_id,
                            endpoint: addr.clone(),
                        },
                    );
                    proof {
                        assert(peers_view(r@) =~= peers_view(before).push(
                            (g.local_replica_id, addr@),
                        ));
                        assert(peers_view(r@) =~= base + store_peers(
                            *store,
                            store.groups@.take(j + 1),
                            gid,
                            local_id,
                        ));
                    }
                }
                j = j + 1;
            }
            proof {
                assert(store.groups@.take(j as int) =~= store.groups@);
            }
        } else {
            proof {
                assert(base + store_peers(*store, store.groups@, gid, local_id) =~= base);
            }
        }
        i = i + 1;
    }
    proof {
        assert(topology@.take(i as int) =~= topology@);
    }
    r
}

impl KvStoreRegistry {
    /// Put a store back and see that only its groups may have changed.
    pub(crate) fn put_store(
        &mut self,
        store: PxKvStore,
        Ghost(before): Ghost<Map<u64, PxKvStore>>,
        Ghost(groups): Ghost<Map<u64, PxGroup>>,
    )
        requires
            old(self).wf(),
            store.wf(),
            before.contains_key(store.store_id),
            old(self).view_stores() == before.remove(store.store_id),
            regrouped(before[store.store_id], store, groups),
        ensures
            final(self).wf(),
            *final(self) == (KvStoreRegistry { stores: final(self).stores, ..*old(self) }),
            store_regrouped(before, final(self).view_stores(), store.store_id, groups),
            groups == before[store.store_id].view_groups() ==> unchanged(
                before,
                final(self).view_stores(),
            ),
    {
        let ghost sid = store.store_id;
        let ghost kept = store;
        self.add_store(store);
        proof {
            let after = self.view_stores();
            assert(after.dom() =~= before.dom());
            assert forall|id: u64| #[trigger] after.contains_key(id) implies regrouped(
                before[id],
                after[id],
                if id == sid {
                    groups
                } else {
                    before[id].view_groups()
                },
            ) by {
                if id == sid {
                    assert(after[id] == kept);
                } else {
                    assert(after[id] == before[id]);
                }
            }
        }
    }

    /// Status of all stores.
    pub fn export_topology(&mut self) -> (r: Vec<StoreStatus>)
        requires
            old(self).wf(),
            all_countable(old(self).view_stores()),
        ensures
            final(self).wf(),
            *final(self) == (KvStoreRegistry { stores: final(self).stores, ..*old(self) }),
            unchanged(old(self).view_stores(), final(self).view_stores()),
            statuses_of(r@, old(self).view_stores()),
    {
        let ids = self.store_ids();
        let ghost start = self.view_stores();
        let mut r: Vec<StoreStatus> = Vec::new();
        let mut i: usize = 0;
        while i < ids.len()
            invariant
                i <= ids.len(),
                r.len() == i,
                start == old(self).view_stores(),
                lists_stores(ids@, start),
                all_countable(start),
                self.wf(),
                *self == (KvStoreRegistry { stores: self.stores, ..*old(self) }),
                unchanged(start, self.view_stores()),
                forall|k: int|
                    0 <= k < i ==> (#[trigger] r[k]).store_id == ids[k]
                        && start[ids[k]].reported_by(r[k]),
            decreases ids.len() - i,
        {
            let id: u64 = ids[i];
            let ghost before = self.view_stores();
            proof {
                assert(ids@.contains(id));
                assert(start.contains_key(id));
                assert(before.contains_key(id));
            }
            if let Some(mut store) = self.get_store(id) {
                let ghost taken = store;
                proof {
                    assert(regrouped(start[id], taken, start[id].view_groups()));
                }
                let s = store.status();
                proof {
                    assert(taken.reported_by(s));
                    assert(start[id].reported_by(s));
                    assert(regrouped(before[id], store, before[id].view_groups()));
                }
                self.put_store(store, Ghost(before), Ghost(before[id].view_groups()));
                proof {
                    lemma_unchanged_chain(start, before, self.view_stores());
                }
                r.push(s);
            }
            i = i + 1;
        }
        proof {
            assert(r@.map_values(|x: StoreStatus| x.store_id) =~= ids@);
        }
        r
    }

    /// Health of the server: that of its worst store. A server that cannot
    /// serve answers with status 503.
    pub fn health_check(&mut self) -> (r: (u16, HealthResponse))
        requires
            old(self).wf(),
            all_countable(old(self).view_stores()),
        ensures
            final(self).wf(),
            *final(self) == (KvStoreRegistry { stores: final(self).stores, ..*old(self) }),
            unchanged(old(self).view_stores(), final(self).view_stores()),
            statuses_of(r.1.stores@, old(self).view_stores()),
            health_answered(r.0, r.1),
            r.1.status@ == worst_store_level(r.1.stores@).name(),
            r.0 == if worst_store_level(r.1.stores@) is Unhealthy {
                503
            } else {
                200u16
            },
            texts(r.1.messages@) == if r.1.stores.len() == 0 {
                seq!["no stores configured"@]
            } else {
                Seq::empty()
            },
    {
        let stores = self.export_topology();
        let mut overall = StatusLevel::Healthy;
        let mut i: usize = 0;
        proof {
            assert(stores@.take(0) =~= Seq::empty());
        }
        while i < stores.len()
            invariant
                i <= stores.len(),
                overall == worst_store_level(stores@.take(i as int)),
            decreases stores.len() - i,
        {
            proof {
                assert(stores@.take(i + 1).drop_last() =~= stores@.take(i as int));
                assert(stores@.take(i + 1).last() == stores@[i as int]);
            }
            overall = StatusLevel::worst(overall, stores[i].status);
            i = i + 1;
        }
        proof {
            assert(stores@.take(i as int) =~= stores@);
        }
        let mut messages: Vec<String> = Vec::new();
        if stores.is_empty() {
            messages.push("no stores configured".to_owned());
        }
        proof {
            assert(texts(messages@) =~= if stores.len() == 0 {
                seq!["no stores configured"@]
            } else {
                Seq::empty()
            });
        }
        let code: u16 = if overall == StatusLevel::Unhealthy {
            503
        } else {
            200
        };
        (code, HealthResponse { status: overall.as_str().to_owned(), messages, stores })
    }

    /// Summaries of all stores, in no particular order.
    pub fn list_stores(&mut self) -> (r: Vec<StoreSummary>)
        requires
            old(self).wf(),
        ensures
            final(self).wf(),
            *final(self) == (KvStoreRegistry { stores: final(self).stores, ..*old(self) }),
            unchanged(old(self).view_stores(), final(self).view_stores()),
            lists_stores(r@.map_values(|s: StoreSummary| s.store_id), old(self).view_stores()),
            forall|i: int|
                0 <= i < r.len() ==> ({
                    let s = old(self).view_stores()[(#[trigger] r[i]).store_id];
                    &&& same_addr(r[i].listen_addr, s.bound_addr)
                    &&& r[i].group_count == s.view_groups().dom().len()
                }),
    {
        let ids = self.store_ids();
        let ghost start = self.view_stores();
        let mut r: Vec<StoreSummary> = Vec::new();
        let mut i: usize = 0;
        while i < ids.len()
            invariant
                i <= ids.len(),
                r.len() == i,
                start == old(self).view_stores(),
                lists_stores(ids@, start),
                self.wf(),
                *self == (KvStoreRegistry { stores: self.stores, ..*old(self) }),
                unchanged(start, self.view_stores()),
                forall|k: int|
                    0 <= k < i ==> (#[trigger] r[k]).store_id == ids[k] && same_addr(
                        r[k].listen_addr,
                        start[ids[k]].bound_addr,
                    ) && r[k].group_count == start[ids[k]].view_groups().dom().len(),
            decreases ids.len() - i,
        {
            let id: u64 = ids[i];
            let ghost before = self.view_stores();
            proof {
                assert(ids@.contains(id));
                assert(start.contains_key(id));
                assert(before.contains_key(id));
            }
            if let Some(store) = self.get_store(id) {
                proof {
                    assert(regrouped(start[id], store, start[id].view_groups()));
                    assert(regrouped(before[id], store, before[id].view_groups()));
                }
                r.push(
                    StoreSummary {
                        store_id: id,
                        listen_addr: copy_addr(&store.bound_addr),
                        group_count: store.group_count(),
                    },
                );
                self.put_store(store, Ghost(before), Ghost(before[id].view_groups()));
                proof {
                    lemma_unchanged_chain(start, before, self.view_stores());
                }
            }
            i = i + 1;
        }
        proof {
            assert(r@.map_values(|s: StoreSummary| s.store_id) =~= ids@);
        }
        r
    }

    /// The groups of a store.
    pub fn list_groups(&mut self, sid: u64) -> (r: Result<Vec<GroupSummary>, ApiError>)
        requires
            old(self).wf(),
        ensures
            final(self).wf(),
            *final(self) == (KvStoreRegistry { stores: final(self).stores, ..*old(self) }),
            unchanged(old(self).view_stores(), final(self).view_stores()),
            match r {
                Ok(groups) => {
                    &&& old(self).view_stores().contains_key(sid)
                    &&& groups_listed(groups@, old(self).view_stores()[sid].view_groups())
                },
                Err(e) => !old(self).view_stores().contains_key(sid) && e.says(
                    404,
                    store_missing(sid),
                ),
            },
    {
        let detail = self.get_store_detail(sid)?;
        Ok(detail.groups)
    }

    /// A store with its groups.
    pub fn get_store_detail(&mut self, sid: u64) -> (r: Result<StoreDetail, ApiError>)
        requires
            old(self).wf(),
        ensures
            final(self).wf(),
            *final(self) == (KvStoreRegistry { stores: final(self).stores, ..*old(self) }),
            unchanged(old(self).view_stores(), final(self).view_stores()),
            match r {
                Ok(d) => {
                    &&& old(self).view_stores().contains_key(sid)
                    &&& d.store_id == sid
                    &&& same_addr(d.listen_addr, old(self).view_stores()[sid].bound_addr)
                    &&& groups_listed(d.groups@, old(self).view_stores()[sid].view_groups())
                },
                Err(e) => !old(self).view_stores().contains_key(sid) && e.says(
                    404,
                    store_missing(sid),
                ),
            },
    {
        let ghost before = self.view_stores();
        let mut store = match self.get_store(sid) {
            Some(s) => s,
            None => {
                proof {
                    assert(self.view_stores() =~= before);
                }
                return Err(no_store(sid));
            },
        };
        let groups = store.group_summaries();
        let listen_addr = copy_addr(&store.bound_addr);
        self.put_store(store, Ghost(before), Ghost(before[sid].view_groups()));
        Ok(StoreDetail { store_id: sid, listen_addr, groups })
    }

    /// The store that a request asks for, ready to be started. It takes the
    /// port of the request, or any free one.
    pub fn new_store(&self, req: &AddStoreRequest) -> (r: Result<PxKvStore, ApiError>)
        ensures
            match r {
                Ok(s) => {
                    &&& !self.view_stores().contains_key(req.store_id)
                    &&& s.wf()
                    &&& s.store_id == req.store_id
                    &&& s.listen_addr@ == "0.0.0.0:"@ + dec(
                        match req.port {
                            Some(p) => p as nat,
                            None => 0,
                        },
                    )
                    &&& s.bound_addr is None
                    &&& !s.server_running
                    &&& !s.stop_pending
                    &&& !s.shutdown_started
                    &&& initial_groups(s.view_groups(), *req)
                },
                Err(e) => self.view_stores().contains_key(req.store_id) && e.says(
                    409,
                    "store "@ + dec(req.store_id as nat) + " already exists"@,
                ),
            },
    {
        if self.has_store(req.store_id) {
            let id: String = decimal(req.store_id);
            return Err(
                ApiError {
                    status: 409,
                    error: concat3("store ", id.as_str(), " already exists"),
                },
            );
        }
        let port: u64 = match req.port {
            Some(p) => p as u64,
            None => 0,
        };
        let text: String = decimal(port);
        let mut store = PxKvStore::new(req.store_id, concat2("0.0.0.0:", text.as_str()));
        if let (Some(gid), Some(rid)) = (req.group_id, req.replica_id) {
            let local_replica = PxLocalReplica::new(rid, PxLocalReplicaRole::Follower);
            let ghost replica = local_replica;
            let group = PxGroup::new(gid, local_replica);
            let ghost made = group;
            store.add_group(group);
            proof {
                assert(store.view_groups() =~= Map::<u64, PxGroup>::empty().insert(gid, made));
                assert(made.is_new(gid, made.local_replica));
                assert(made.local_replica.is_new(rid, PxLocalReplicaRole::Follower));
            }
        }
        Ok(store)
    }

    /// Take in a new store, whose listener came to `outcome`.
    pub fn add_started_store(&mut self, store: PxKvStore, outcome: BindOutcome) -> (r: Result<
        StoreSummary,
        ApiError,
    >)
        requires
            old(self).wf(),
            store.wf(),
        ensures
            final(self).wf(),
            *final(self) == (KvStoreRegistry { stores: final(self).stores, ..*old(self) }),
            match outcome {
                BindOutcome::Bound(addr) => {
                    let id = store.store_id;
                    let after = final(self).view_stores();
                    &&& r matches Ok(s) && s.store_id == id && s.listen_addr == Some(addr)
                        && s.group_count == store.view_groups().dom().len()
                    &&& after.contains_key(id)
                    &&& after == old(self).view_stores().insert(id, after[id])
                    &&& after[id] == (PxKvStore {
                        groups: after[id].groups,
                        bound_addr: Some(addr),
                        server_running: true,
                        stop_pending: true,
                        ..store
                    })
                    &&& endpoints_set(
                        store.view_groups(),
                        after[id].view_groups(),
                        store.view_groups().dom(),
                        addr,
                    )
                },
                BindOutcome::Refused(error) => {
                    &&& final(self).view_stores() == old(self).view_stores()
                    &&& r matches Err(e) && e.says(
                        500,
                        "failed to start store gRPC server: "@ + ("failed to bind kv server on "@
                            + store.listen_addr@ + ": "@ + error@
                            + "; next step: choose an available listen_addr or stop the conflicting process"@),
                    )
                },
                BindOutcome::AddressUnknown(error) => {
                    &&& final(self).view_stores() == old(self).view_stores()
                    &&& r matches Err(e) && e.says(
                        500,
                        "failed to start store gRPC server: "@ + (
                        "failed to read bound kv server address: "@ + error@
                            + "; next step: restart kv server and inspect socket state"@),
                    )
                },
            },
    {
        let mut store = store;
        match store.start(outcome) {
            Err(e) => Err(
                ApiError {
                    status: 500,
                    error: concat2("failed to start store gRPC server: ", e.as_str()),
                },
            ),
            Ok(_) => {
                let summary = StoreSummary {
                    store_id: store.store_id,
                    listen_addr: store.bound_addr.clone(),
                    group_count: store.group_count(),
                };
                self.add_store(store);
                Ok(summary)
            },
        }
    }

    /// Take a store out of service. The program shuts down what it gets.
    pub fn remove_store_or_refuse(&mut self, sid: u64) -> (r: Result<PxKvStore, ApiError>)
        requires
            old(self).wf(),
        ensures
            final(self).wf(),
            *final(self) == (KvStoreRegistry { stores: final(self).stores, ..*old(self) }),
            final(self).view_stores() == old(self).view_stores().remove(sid),
            match r {
                Ok(s) => old(self).view_stores().contains_key(sid) && s == old(
                    self,
                ).view_stores()[sid] && s.wf(),
                Err(e) => !old(self).view_stores().contains_key(sid) && e.says(
                    404,
                    store_missing(sid),
                ),
            },
    {
        match self.remove_store(sid) {
            Some(s) => Ok(s),
            None => Err(no_store(sid)),
        }
    }

    /// Whether a group may be created, and in which role it starts.
    pub fn new_group_role(&mut self, sid: u64, req: &AddGroupRequest) -> (r: Result<
        PxLocalReplicaRole,
        ApiError,
    >)
        requires
            old(self).wf(),
        ensures
            final(self).wf(),
            *final(self) == (KvStoreRegistry { stores: final(self).stores, ..*old(self) }),
            unchanged(old(self).view_stores(), final(self).view_stores()),
            match r {
                Ok(role) => {
                    &&& old(self).view_stores().contains_key(sid)
                    &&& !has_group(old(self).view_stores(), sid, req.group_id)
                    &&& role == if req.initial_role == Some(AddGroupInitialRole::Follower) {
                        PxLocalReplicaRole::Follower
                    } else {
                        PxLocalReplicaRole::Leader
                    }
                },
                Err(e) => if !old(self).view_stores().contains_key(sid) {
                    e.says(404, store_missing(sid))
                } else {
                    has_group(old(self).view_stores(), sid, req.group_id) && e.says(
                        409,
                        "group "@ + dec(req.group_id as nat) + " already exists in store "@ + dec(
                            sid as nat,
                        ),
                    )
                },
            },
    {
        let ghost before = self.view_stores();
        let store = match self.get_store(sid) {
            Some(s) => s,
            None => {
                proof {
                    assert(self.view_stores() =~= before);
                }
                return Err(no_store(sid));
            },
        };
        let taken = store.has_group(req.group_id);
        self.put_store(store, Ghost(before), Ghost(before[sid].view_groups()));
        if taken {
            let g: String = decimal(req.group_id);
            let s: String = decimal(sid);
            let front: String = concat3("group ", g.as_str(), " already exists in store ");
            return Err(ApiError { status: 409, error: concat2(front.as_str(), s.as_str()) });
        }
        match req.initial_role {
            Some(AddGroupInitialRole::Follower) => Ok(PxLocalReplicaRole::Follower),
            _ => Ok(PxLocalReplicaRole::Leader),
        }
    }

    /// Take in a group that was created for a request, or the error of its
    /// creation. Tells whether its elections start now.
    pub fn add_created_group(
        &mut self,
        sid: u64,
        req: &AddGroupRequest,
        created: Result<PxGroup, String>,
    ) -> (r: Result<bool, ApiError>)
        requires
            old(self).wf(),
            created matches Ok(g) ==> g.wf() && g.group_id == req.group_id,
        ensures
            final(self).wf(),
            *final(self) == (KvStoreRegistry { stores: final(self).stores, ..*old(self) }),
            match (r, created) {
                (Ok(start), Ok(g)) => {
                    &&& old(self).view_stores().contains_key(sid)
                    &&& start == (req.start_election != Some(false))
                    &&& store_regrouped(
                        old(self).view_stores(),
                        final(self).view_stores(),
                        sid,
                        old(self).view_stores()[sid].view_groups().insert(
                            req.group_id,
                            placed(old(self).view_stores()[sid], g),
                        ),
                    )
                },
                (Ok(_), Err(_)) => false,
                (Err(e), created) => {
                    &&& unchanged(old(self).view_stores(), final(self).view_stores())
                    &&& if let Err(error) = created {
                        e.says(
                            500,
                            "failed to create WAL-backed group "@ + dec(req.group_id as nat)
                                + " in store "@ + dec(sid as nat) + ": "@ + error@,
                        )
                    } else {
                        !old(self).view_stores().contains_key(sid) && e.says(
                            404,
                            store_missing(sid),
                        )
                    }
                },
            },
    {
        let group = match created {
            Ok(g) => g,
            Err(error) => {
                let g: String = decimal(req.group_id);
                let s: String = decimal(sid);
                let front: String = concat3(
                    "failed to create WAL-backed group ",
                    g.as_str(),
                    " in store ",
                );
                let middle: String = concat3(front.as_str(), s.as_str(), ": ");
                return Err(
                    ApiError { status: 500, error: concat2(middle.as_str(), error.as_str()) },
                );
            },
        };
        let ghost before = self.view_stores();
        let mut store = match self.get_store(sid) {
            Some(s) => s,
            None => {
                proof {
                    assert(self.view_stores() =~= before);
                }
                return Err(no_store(sid));
            },
        };
        store.add_group(group);
        let ghost groups = store.view_groups();
        self.put_store(store, Ghost(before), Ghost(groups));
        Ok(!matches!(req.start_election, Some(false)))
    }

    /// Remove a group.
    pub fn remove_group(&mut self, sid: u64, gid: u64) -> (r: Result<(), ApiError>)
        requires
            old(self).wf(),
        ensures
            final(self).wf(),
            *final(self) == (KvStoreRegistry { stores: final(self).stores, ..*old(self) }),
            match r {
                Ok(_) => {
                    &&& has_group(old(self).view_stores(), sid, gid)
                    &&& store_regrouped(
                        old(self).view_stores(),
                        final(self).view_stores(),
                        sid,
                        old(self).view_stores()[sid].view_groups().remove(gid),
                    )
                },
                Err(e) => {
                    &&& unchanged(old(self).view_stores(), final(self).view_stores())
                    &&& missing(old(self).view_stores(), sid, gid) matches Some(text) && e.says(
                        404,
                        text,
                    )
                },
            },
    {
        let ghost before = self.view_stores();
        let mut store = match self.get_store(sid) {
            Some(s) => s,
            None => {
                proof {
                    assert(self.view_stores() =~= before);
                }
                return Err(no_store(sid));
            },
        };
        let removed = store.remove_group(gid);
        let ghost groups = store.view_groups();
        proof {
            if !removed {
                assert(groups =~= before[sid].view_groups());
            }
        }
        self.put_store(store, Ghost(before), Ghost(groups));
        if removed {
            Ok(())
        } else {
            Err(no_group(gid, sid))
        }
    }

    /// The remote members of a group.
    pub fn list_remote_replicas(&mut self, sid: u64, gid: u64) -> (r: Result<
        Vec<RemoteReplicaInfo>,
        ApiError,
    >)
        requires
            old(self).wf(),
        ensures
            final(self).wf(),
            *final(self) == (KvStoreRegistry { stores: final(self).stores, ..*old(self) }),
            unchanged(old(self).view_stores(), final(self).view_stores()),
            match (r, missing(old(self).view_stores(), sid, gid)) {
                (Ok(peers), None) => peers_view(peers@) == peers_of(
                    old(self).view_stores()[sid].view_groups()[gid],
                ),
                (Err(e), Some(text)) => e.says(404, text),
                _ => false,
            },
    {
        let ghost before = self.view_stores();
        let (store, group) = self.check_out(sid, gid)?;
        let mut store = store;
        let peers = peers_info(&group);
        store.put_group(group);
        proof {
            assert(store.view_groups() =~= before[sid].view_groups());
        }
        self.put_store(store, Ghost(before), Ghost(before[sid].view_groups()));
        Ok(peers)
    }

    /// Take a group out of its store, and the store out of the registry.
    pub(crate) fn check_out(&mut self, sid: u64, gid: u64) -> (r: Result<(PxKvStore, PxGroup), ApiError>)
        requires
            old(self).wf(),
        ensures
            final(self).wf(),
            *final(self) == (KvStoreRegistry { stores: final(self).stores, ..*old(self) }),
            match (r, missing(old(self).view_stores(), sid, gid)) {
                (Ok((store, group)), None) => {
                    let s = old(self).view_stores()[sid];
                    &&& store.wf()
                    &&& store.store_id == sid
                    &&& regrouped(s, store, s.view_groups().remove(gid))
                    &&& group == s.view_groups()[gid]
                    &&& group.wf()
                    &&& group.group_id == gid
                    &&& final(self).view_stores() == old(self).view_stores().remove(sid)
                },
                (Err(e), Some(text)) => {
                    &&& e.says(404, text)
                    &&& unchanged(old(self).view_stores(), final(self).view_stores())
                },
                _ => false,
            },
    {
        let ghost before = self.view_stores();
        let mut store = match self.get_store(sid) {
            Some(s) => s,
            None => {
                proof {
                    assert(self.view_stores() =~= before);
                }
                return Err(no_store(sid));
            },
        };
        match store.get_group(gid) {
            Some(group) => Ok((store, group)),
            None => {
                proof {
                    assert(store.view_groups() =~= before[sid].view_groups());
                }
                self.put_store(store, Ghost(before), Ghost(before[sid].view_groups()));
                Err(no_group(gid, sid))
            },
        }
    }

    /// Add remote members to a group. The local replica cannot be one of them.
    pub fn add_remote_replicas(&mut self, sid: u64, gid: u64, remotes: &Vec<RemoteReplicaInfo>) -> (r:
        Result<(), ApiError>)
        requires
            old(self).wf(),
            has_group(old(self).view_stores(), sid, gid) ==> {
                let g = old(self).view_stores()[sid].view_groups()[gid];
                &&& g.remote_replicas.len() < usize::MAX - 1
                &&& epoch_lasts(g, peers_view(remotes@))
            },
            ids_fit(new_members(peers_view(remotes@))),
        ensures
            final(self).wf(),
            *final(self) == (KvStoreRegistry { stores: final(self).stores, ..*old(self) }),
            match (r, missing(old(self).view_stores(), sid, gid)) {
                (Ok(_), None) => {
                    let s = old(self).view_stores()[sid];
                    let g = s.view_groups()[gid];
                    &&& forall|i: int|
                        0 <= i < remotes.len() ==> (#[trigger] remotes[i]).replica_id
                            != g.local_replica.id
                    &&& exists|g2: PxGroup| #[trigger]
                        rebuilt_with(g2, g, peers_view(remotes@)) && store_regrouped(
                            old(self).view_stores(),
                            final(self).view_stores(),
                            sid,
                            s.view_groups().insert(gid, placed(s, g2)),
                        )
                },
                (Err(e), None) => {
                    let id = old(self).view_stores()[sid].view_groups()[gid].local_replica.id;
                    &&& unchanged(old(self).view_stores(), final(self).view_stores())
                    &&& exists|i: int|
                        0 <= i < remotes.len() && (#[trigger] remotes[i]).replica_id == id
                    &&& e.says(
                        400,
                        "cannot add local replica "@ + dec(id as nat)
                            + " as remote; local replicas are managed with the group"@,
                    )
                },
                (Err(e), Some(text)) => {
                    &&& unchanged(old(self).view_stores(), final(self).view_stores())
                    &&& e.says(404, text)
                },
                _ => false,
            },
    {
        let ghost before = self.view_stores();
        let (store, group) = self.check_out(sid, gid)?;
        let mut store = store;
        let local_id: u64 = group.local_replica.id;
        let mut i: usize = 0;
        while i < remotes.len()
            invariant
                i <= remotes.len(),
                before == old(self).view_stores(),
                missing(before, sid, gid) is None,
                before.contains_key(sid),
                store.wf(),
                store.store_id == sid,
                regrouped(before[sid], store, before[sid].view_groups().remove(gid)),
                group == before[sid].view_groups()[gid],
                group.wf(),
                group.group_id == gid,
                local_id == group.local_replica.id,
                self.wf(),
                *self == (KvStoreRegistry { stores: self.stores, ..*old(self) }),
                self.view_stores() == before.remove(sid),
                forall|k: int|
                    0 <= k < i ==> (#[trigger] remotes[k]).replica_id != local_id,
            decreases remotes.len() - i,
        {
            if remotes[i].replica_id == local_id {
                store.put_group(group);
                proof {
                    assert(store.view_groups() =~= before[sid].view_groups());
                }
                self.put_store(store, Ghost(before), Ghost(before[sid].view_groups()));
                let id: String = decimal(local_id);
                return Err(
                    ApiError {
                        status: 400,
                        error: concat3(
                            "cannot add local replica ",
                            id.as_str(),
                            " as remote; local replicas are managed with the group",
                        ),
                    },
                );
            }
            i = i + 1;
        }
        let g2 = rebuild_with(group, remotes);
        let ghost made = g2;
        store.add_group(g2);
        let ghost groups = store.view_groups();
        proof {
            assert(groups =~= before[sid].view_groups().insert(gid, placed(before[sid], made)));
            assert(rebuilt_with(made, group, peers_view(remotes@)));
        }
        self.put_store(store, Ghost(before), Ghost(groups));
        Ok(())
    }

    /// Add to a group the members that other servers' topologies name.
    pub fn batch_add_remote_replicas(&mut self, sid: u64, gid: u64, topology: &Vec<StoreStatus>) -> (r:
        Result<(), ApiError>)
        requires
            old(self).wf(),
            has_group(old(self).view_stores(), sid, gid) ==> {
                let g = old(self).view_stores()[sid].view_groups()[gid];
                let peers = topology_peers(topology@, gid, g.local_replica.id);
                &&& g.remote_replicas.len() < usize::MAX - 1
                &&& ids_fit(new_members(peers))
                &&& epoch_lasts(g, peers)
            },
        ensures
            final(self).wf(),
            *final(self) == (KvStoreRegistry { stores: final(self).stores, ..*old(self) }),
            match (r, missing(old(self).view_stores(), sid, gid)) {
                (Ok(_), None) => {
                    let s = old(self).view_stores()[sid];
                    let g = s.view_groups()[gid];
                    let peers = topology_peers(topology@, gid, g.local_replica.id);
                    if peers.len() == 0 {
                        unchanged(old(self).view_stores(), final(self).view_stores())
                    } else {
                        exists|g2: PxGroup| #[trigger]
                            rebuilt_with(g2, g, peers) && store_regrouped(
                                old(self).view_stores(),
                                final(self).view_stores(),
                                sid,
                                s.view_groups().insert(gid, placed(s, g2)),
                            )
                    }
                },
                (Err(e), Some(text)) => {
                    &&& unchanged(old(self).view_stores(), final(self).view_stores())
                    &&& e.says(404, text)
                },
                _ => false,
            },
    {
        let ghost before = self.view_stores();
        let (store, group) = self.check_out(sid, gid)?;
        let mut store = store;
        let peers = peers_from_topology(topology, gid, group.local_replica.id);
        if peers.is_empty() {
            store.put_group(group);
            proof {
                assert(peers_view(peers@).len() == 0);
                assert(store.view_groups() =~= before[sid].view_groups());
            }
            self.put_store(store, Ghost(before), Ghost(before[sid].view_groups()));
            return Ok(());
        }
        proof {
            assert(peers_view(peers@).len() > 0);
        }
        let ghost prior = group;
        let g2 = rebuild_with(group, &peers);
        let ghost made = g2;
        store.add_group(g2);
        let ghost groups = store.view_groups();
        proof {
            assert(groups =~= before[sid].view_groups().insert(gid, placed(before[sid], made)));
            assert(rebuilt_with(made, prior, peers_view(peers@)));
        }
        self.put_store(store, Ghost(before), Ghost(groups));
        Ok(())
    }

    /// Remove a remote member of a group. A replica that is then alone leads.
    pub fn remove_remote_replica(&mut self, sid: u64, gid: u64, rid: u64) -> (r: Result<
        RemovalFollowUp,
        ApiError,
    >)
        requires
            old(self).wf(),
            has_group(old(self).view_stores(), sid, gid) ==> {
                let g = old(self).view_stores()[sid].view_groups()[gid];
                &&& g.remote_replicas.len() < usize::MAX - 1
                &&& has_vote(members_of(g), rid as int) ==> g.membership_epoch < u64::MAX
            },
        ensures
            final(self).wf(),
            *final(self) == (KvStoreRegistry { stores: final(self).stores, ..*old(self) }),
            match (r, missing(old(self).view_stores(), sid, gid)) {
                (Ok(follow_up), None) => removal_done(
                    old(self).view_stores(),
                    final(self).view_stores(),
                    sid,
                    gid,
                    rid,
                    follow_up,
                ),
                (Err(e), None) => {
                    let g = old(self).view_stores()[sid].view_groups()[gid];
                    &&& unchanged(old(self).view_stores(), final(self).view_stores())
                    &&& if rid == g.local_replica.id {
                        e.says(
                            400,
                            "cannot remove local replica; local replicas are managed with the group"@,
                        )
                    } else {
                        member_for(members_of(g), rid as int) is None && e.says(
                            404,
                            "remote replica "@ + dec(rid as nat) + " not found in group "@ + dec(
                                gid as nat,
                            ),
                        )
                    }
                },
                (Err(e), Some(text)) => {
                    &&& unchanged(old(self).view_stores(), final(self).view_stores())
                    &&& e.says(404, text)
                },
                _ => false,
            },
    {
        let ghost before = self.view_stores();
        let (store, group) = self.check_out(sid, gid)?;
        let mut store = store;
        let ghost prior = group;
        if rid == group.local_replica.id {
            store.put_group(group);
            proof {
                assert(store.view_groups() =~= before[sid].view_groups());
            }
            self.put_store(store, Ghost(before), Ghost(before[sid].view_groups()));
            return Err(
                ApiError {
                    status: 400,
                    error: "cannot remove local replica; local replicas are managed with the group".to_owned(),
                },
            );
        }
        let existing = members_info(&group);
        if !has_member(&existing, rid) {
            store.put_group(group);
            proof {
                assert(store.view_groups() =~= before[sid].view_groups());
            }
            self.put_store(store, Ghost(before), Ghost(before[sid].view_groups()));
            let r: String = decimal(rid);
            let g: String = decimal(gid);
            let front: String = concat3("remote replica ", r.as_str(), " not found in group ");
            return Err(ApiError { status: 404, error: concat2(front.as_str(), g.as_str()) });
        }
        let (g2, follow_up) = without_member(group, rid);
        let ghost last = g2;
        store.add_group(g2);
        let ghost groups = store.view_groups();
        proof {
            assert(groups =~= before[sid].view_groups().insert(gid, placed(before[sid], last)));
        }
        self.put_store(store, Ghost(before), Ghost(groups));
        proof {
            let s = before[sid];
            assert(s.view_groups()[gid] == prior);
            assert(member_removed(prior, last, rid, follow_up) && store_regrouped(
                before,
                self.view_stores(),
                sid,
                s.view_groups().insert(gid, placed(s, last)),
            ));
            assert(removal_done(before, self.view_stores(), sid, gid, rid, follow_up));
        }
        Ok(follow_up)
    }
}

/// `g` is `prior` without the member `rid`, and `follow_up` is what is left to do.
pub open spec fn member_removed(
    prior: PxGroup,
    g: PxGroup,
    rid: u64,
    follow_up: RemovalFollowUp,
) -> bool {
    exists|made: PxGroup| #[trigger]
        rebuilt_without(made, prior, rid) && made.wf() && g == settled(
            prior,
            made,
            rid,
        ) && follow_up == (RemovalFollowUp {
            persist_vote: made.cached_quorum == 1,
            clear_vote_lockout: made.cached_quorum != 1 && prior.spec_leader_id() == rid,
        })
}

/// The member `rid` was removed from the group `gid` of the store `sid`.
pub open spec fn removal_done(
    before: Map<u64, PxKvStore>,
    after: Map<u64, PxKvStore>,
    sid: u64,
    gid: u64,
    rid: u64,
    follow_up: RemovalFollowUp,
) -> bool {
    let s = before[sid];
    let g = s.view_groups()[gid];
    &&& rid != g.local_replica.id
    &&& member_for(members_of(g), rid as int) is Some
    &&& exists|g2: PxGroup| #[trigger]
        member_removed(g, g2, rid, follow_up) && store_regrouped(
            before,
            after,
            sid,
            s.view_groups().insert(gid, placed(s, g2)),
        )
}

/// A group without the member `rid`, and what is left to do.
pub fn without_member(group: PxGroup, rid: u64) -> (r: (PxGroup, RemovalFollowUp))
    requires
        group.wf(),
        group.remote_replicas.len() < usize::MAX - 1,
        has_vote(members_of(group), rid as int) ==> group.membership_epoch < u64::MAX,
    ensures
        r.0.wf(),
        r.0.group_id == group.group_id,
        member_removed(group, r.0, rid, r.1),
{
    let ghost prior = group;
    let current_term: u64 = group.local_replica.current_term;
    let leader_id: u64 = group.leader_id();
    let mut g = rebuild_without(group, rid);
    let ghost made = g;
    let alone = g.cached_quorum == 1;
    if alone {
        g.local_replica.become_leader();
        g.proposing_term = current_term;
    } else if leader_id == rid {
        g.local_replica.become_follower(current_term);
    }
    let follow_up = RemovalFollowUp {
        persist_vote: alone,
        clear_vote_lockout: !alone && leader_id == rid,
    };
    proof {
        assert(rebuilt_without(made, prior, rid));
        assert(g == settled(prior, made, rid));
        assert(g.voters() == made.voters());
    }
    (g, follow_up)
}

fn has_member(members: &Vec<PxGroupMember>, id: u64) -> (r: bool)
    ensures
        r == (member_for(members_view(members@), id as int) is Some),
{
    let ghost views = members_view(members@);
    let mut i: usize = members.len();
    proof {
        assert(views.take(i as int) =~= views);
    }
    while i > 0
        invariant
            i <= members.len(),
            views == members_view(members@),
            member_for(views, id as int) == member_for(views.take(i as int), id as int),
        decreases i,
    {
        proof {
            assert(views.take(i as int).drop_last() =~= views.take(i - 1));
            assert(views.take(i as int).last() == views[i - 1]);
        }
        if members[i - 1].replica_id == id {
            return true;
        }
        i = i - 1;
    }
    false
}

/// `summaries` lists the groups, each once.
pub open spec fn groups_listed(summaries: Seq<GroupSummary>, groups: Map<u64, PxGroup>) -> bool {
    &&& lists_groups(summaries.map_values(|s: GroupSummary| s.group_id), groups)
    &&& forall|i: int|
        0 <= i < summaries.len() ==> #[trigger] summaries[i] == summary_of(
            groups[summaries[i].group_id],
        )
}

/// The groups that a new store starts with: the one that the request names, or
/// none.
pub open spec fn initial_groups(groups: Map<u64, PxGroup>, req: AddStoreRequest) -> bool {
    match (req.group_id, req.replica_id) {
        (Some(gid), Some(rid)) => {
            &&& groups.dom() == set![gid]
            &&& groups[gid].is_new(gid, groups[gid].local_replica)
            &&& groups[gid].local_replica.is_new(rid, PxLocalReplicaRole::Follower)
        },
        _ => groups == Map::<u64, PxGroup>::empty(),
    }
}

pub(crate) proof fn lemma_unchanged_chain(
    a: Map<u64, PxKvStore>,
    b: Map<u64, PxKvStore>,
    c: Map<u64, PxKvStore>,
)
    requires
        unchanged(a, b),
        unchanged(b, c),
    ensures
        unchanged(a, c),
{
    assert forall|id: u64| #[trigger] c.contains_key(id) implies regrouped(
        a[id],
        c[id],
        a[id].view_groups(),
    ) by {
        assert(b.contains_key(id));
    }
}

// ── Laws of management ───────────────────────────────────────────
/// A group that was removed is not found afterwards; every other group of every
/// store is still there.
pub proof fn removed_group_is_not_found(
    before: Map<u64, PxKvStore>,
    after: Map<u64, PxKvStore>,
    sid: u64,
    gid: u64,
    s: u64,
    g: u64,
)
    requires
        before.contains_key(sid),
        store_regrouped(before, after, sid, before[sid].view_groups().remove(gid)),
    ensures
        missing(after, sid, gid) == Some(group_missing(gid, sid)),
        s != sid || g != gid ==> has_group(after, s, g) == has_group(before, s, g),
{
    assert(after.contains_key(sid));
    if before.contains_key(s) {
        assert(after.contains_key(s));
    }
}

/// A group that was added is found afterwards, and a second one with its id is
/// refused for that.
pub proof fn added_group_is_found(
    before: Map<u64, PxKvStore>,
    after: Map<u64, PxKvStore>,
    sid: u64,
    gid: u64,
    g: PxGroup,
)
    requires
        before.contains_key(sid),
        store_regrouped(
            before,
            after,
            sid,
            before[sid].view_groups().insert(gid, placed(before[sid], g)),
        ),
    ensures
        has_group(after, sid, gid),
        after[sid].view_groups()[gid] == placed(before[sid], g),
{
    assert(after.contains_key(sid));
}

/// A replica that is alone once a member is removed leads its group and may
/// propose.
pub proof fn lone_replica_may_propose(prior: PxGroup, g: PxGroup, rid: u64, follow_up: RemovalFollowUp)
    requires
        member_removed(prior, g, rid, follow_up),
        follow_up.persist_vote,
    ensures
        g.may_propose(),
        g.local_replica.believed_leader == Some(g.local_replica.id),
{
}

/// What is reported over all stores is never better than one of them, and
/// healthy if all of them are.
pub proof fn worst_store_tells_the_level(s: Seq<StoreStatus>)
    ensures
        forall|i: int|
            0 <= i < s.len() ==> worst_store_level(s).rank() >= (#[trigger] s[i]).status.rank(),
        worst_store_level(s) is Healthy || exists|i: int|
            0 <= i < s.len() && (#[trigger] s[i]).status == worst_store_level(s),
    decreases s.len(),
{
    if s.len() > 0 {
        let front = s.drop_last();
        worst_store_tells_the_level(front);
        assert forall|i: int| 0 <= i < front.len() implies front[i] == #[trigger] s[i] by {}
        assert(s[s.len() - 1] == s.last());
        if worst_store_level(s) == worst_store_level(front) && !(worst_store_level(front) is Healthy) {
            let i = choose|i: int|
                0 <= i < front.len() && (#[trigger] front[i]).status == worst_store_level(front);
            assert(s[i].status == worst_store_level(s));
        }
    }
}

/// A topology names as peers for a group exactly the replicas of the groups
/// with its id, other than the local one, each at the address of its store;
/// stores without an address name none.
pub proof fn topology_names_the_other_replicas(
    stores: Seq<StoreStatus>,
    gid: u64,
    local_id: u64,
    peer: PeerView,
)
    ensures
        topology_peers(stores, gid, local_id).contains(peer) <==> exists|i: int, j: int|
            0 <= i < stores.len() && 0 <= j < stores[i].groups.len() && (
            #[trigger] stores[i].groups[j]).group_id == gid
                && stores[i].groups[j].local_replica_id != local_id && (
            stores[i].listen_addr matches Some(addr) && peer == (
                stores[i].groups[j].local_replica_id,
                addr@,
            )),
    decreases stores.len(),
{
    let all = topology_peers(stores, gid, local_id);
    if stores.len() > 0 {
        let front = stores.drop_last();
        let s = stores.last();
        topology_names_the_other_replicas(front, gid, local_id, peer);
        lemma_store_peers(s, s.groups@, gid, local_id, peer);
        let before = topology_peers(front, gid, local_id);
        let here = store_peers(s, s.groups@, gid, local_id);
        assert(stores[stores.len() - 1] == s);
        if before.contains(peer) {
            let k = choose|k: int| 0 <= k < before.len() && before[k] == peer;
            assert(all[k] == peer);
            let (i, j) = choose|i: int, j: int|
                0 <= i < front.len() && 0 <= j < front[i].groups.len() && (
                #[trigger] front[i].groups[j]).group_id == gid
                    && front[i].groups[j].local_replica_id != local_id && (
                front[i].listen_addr matches Some(addr) && peer == (
                    front[i].groups[j].local_replica_id,
                    addr@,
                ));
            assert(stores[i].groups[j] == front[i].groups[j]);
        }
        if here.contains(peer) {
            let k = choose|k: int| 0 <= k < here.len() && here[k] == peer;
            assert(all[before.len() + k] == peer);
            let j = choose|j: int|
                0 <= j < s.groups@.len() && (#[trigger] s.groups@[j]).group_id == gid
                    && s.groups@[j].local_replica_id != local_id && (
                s.listen_addr matches Some(addr) && peer == (s.groups@[j].local_replica_id, addr@));
            assert(stores[stores.len() - 1].groups[j] == s.groups@[j]);
        }
        if all.contains(peer) {
            let k = choose|k: int| 0 <= k < all.len() && all[k] == peer;
            if k < before.len() {
                assert(before[k] == peer);
            } else {
                assert(here[k - before.len()] == peer);
            }
        }
        if exists|i: int, j: int|
            0 <= i < stores.len() && 0 <= j < stores[i].groups.len() && (
            #[trigger] stores[i].groups[j]).group_id == gid
                && stores[i].groups[j].local_replica_id != local_id && (
            stores[i].listen_addr matches Some(addr) && peer == (
                stores[i].groups[j].local_replica_id,
                addr@,
            )) {
            let (i, j) = choose|i: int, j: int|
                0 <= i < stores.len() && 0 <= j < stores[i].groups.len() && (
                #[trigger] stores[i].groups[j]).group_id == gid
                    && stores[i].groups[j].local_replica_id != local_id && (
                stores[i].listen_addr matches Some(addr) && peer == (
                    stores[i].groups[j].local_replica_id,
                    addr@,
                ));
            if i < front.len() {
                assert(front[i].groups[j] == stores[i].groups[j]);
            } else {
                assert(s.groups@[j] == stores[i].groups[j]);
            }
        }
    }
}

proof fn lemma_store_peers(
    s: StoreStatus,
    groups: Seq<GroupStatus>,
    gid: u64,
    local_id: u64,
    peer: PeerView,
)
    ensures
        store_peers(s, groups, gid, local_id).contains(peer) <==> exists|j: int|
            0 <= j < groups.len() && (#[trigger] groups[j]).group_id == gid
                && groups[j].local_replica_id != local_id && (s.listen_addr matches Some(addr)
                && peer == (groups[j].local_replica_id, addr@)),
    decreases groups.len(),
{
    let all = store_peers(s, groups, gid, local_id);
    if groups.len() > 0 && s.listen_addr is Some {
        let front = groups.drop_last();
        let before = store_peers(s, front, gid, local_id);
        lemma_store_peers(s, front, gid, local_id, peer);
        assert forall|j: int| 0 <= j < front.len() implies front[j] == #[trigger] groups[j] by {}
        assert(groups[groups.len() - 1] == groups.last());
        if before.contains(peer) {
            let k = choose|k: int| 0 <= k < before.len() && before[k] == peer;
            assert(all[k] == peer);
        }
        if groups.last().group_id == gid && groups.last().local_replica_id != local_id {
            assert(all.last() == (groups.last().local_replica_id, s.listen_addr->0@));
            assert(all[all.len() - 1] == all.last());
        }
        if all.contains(peer) && !before.contains(peer) {
            let k = choose|k: int| 0 <= k < all.len() && all[k] == peer;
            if k < before.len() {
                assert(before[k] == peer);
            }
        }
        if exists|j: int|
            0 <= j < groups.len() && (#[trigger] groups[j]).group_id == gid
                && groups[j].local_replica_id != local_id && (s.listen_addr matches Some(addr)
                && peer == (groups[j].local_replica_id, addr@)) {
            let j = choose|j: int|
                0 <= j < groups.len() && (#[trigger] groups[j]).group_id == gid
                    && groups[j].local_replica_id != local_id && (s.listen_addr matches Some(addr)
                    && peer == (groups[j].local_replica_id, addr@));
            if j < front.len() {
                assert(front[j].group_id == gid);
            }
        }
        if before.contains(peer) {
            let j = choose|j: int|
                0 <= j < front.len() && (#[trigger] front[j]).group_id == gid
                    && front[j].local_replica_id != local_id && (s.listen_addr matches Some(addr)
                    && peer == (front[j].local_replica_id, addr@));
            assert(groups[j].group_id == gid);
        }
    }
}

/// A replica whose leader was removed, while others remain, follows nobody and
/// has no read lease; one whose leader stays is left as it is.
pub proof fn removed_leader_is_followed_no_more(prior: PxGroup, g: PxGroup, rid: u64)
    requires
        g.cached_quorum != 1,
    ensures
        prior.local_replica.believed_leader == Some(rid) && rid != 0 ==> {
            &&& settled(prior, g, rid).local_replica.believed_leader is None
            &&& settled(prior, g, rid).local_replica.role is Follower
            &&& settled(prior, g, rid).local_replica.lease_read_until_ms == 0
            &&& settled(prior, g, rid).local_replica.current_term == g.local_replica.current_term
        },
        prior.local_replica.believed_leader matches Some(l) && l != rid ==> settled(prior, g, rid)
            == g,
{
}

/// A member that is removed from a group is gone, and the other members stay,
/// at their endpoints and with their votes. What is left to do follows: a
/// replica that is now alone writes its own vote down, and one whose leader was
/// removed may vote again at once.
pub proof fn removed_member_leaves_the_others(
    prior: PxGroup,
    g: PxGroup,
    rid: u64,
    follow_up: RemovalFollowUp,
    k: int,
)
    requires
        prior.wf(),
        member_removed(prior, g, rid, follow_up),
        k >= 0,
    ensures
        k == rid ==> entry_at(g.remote_replicas@, k) is Placeholder,
        k != rid ==> match (entry_at(prior.remote_replicas@, k), entry_at(g.remote_replicas@, k)) {
            (RemoteReplicaKind::Real(r), RemoteReplicaKind::Real(now)) => now.endpoint@
                == r.endpoint@ && now.voting == r.voting,
            (RemoteReplicaKind::Placeholder, RemoteReplicaKind::Placeholder) => true,
            _ => false,
        },
        follow_up.persist_vote <==> g.cached_quorum == 1,
        follow_up.clear_vote_lockout <==> g.cached_quorum != 1 && prior.spec_leader_id() == rid,
        follow_up.persist_vote ==> g.local_replica.role is Leader,
        g.next_slot >= prior.next_slot,
{
    let made = choose|made: PxGroup| #[trigger]
        rebuilt_without(made, prior, rid) && made.wf() && g == settled(
            prior,
            made,
            rid,
        ) && follow_up == (RemovalFollowUp {
            persist_vote: made.cached_quorum == 1,
            clear_vote_lockout: made.cached_quorum != 1 && prior.spec_leader_id() == rid,
        });
    rebuild_without_a_member_keeps_the_others(made, prior, rid, k);
}

/// A list of groups has each group of the store once, with the group's own
/// replica, its leader and the number of its peers.
pub proof fn every_group_is_listed_once(
    summaries: Seq<GroupSummary>,
    groups: Map<u64, PxGroup>,
    id: u64,
)
    requires
        groups_listed(summaries, groups),
    ensures
        groups.contains_key(id) <==> exists|i: int|
            0 <= i < summaries.len() && (#[trigger] summaries[i]).group_id == id,
        forall|i: int, j: int|
            0 <= i < j < summaries.len() ==> (#[trigger] summaries[i]).group_id != (
            #[trigger] summaries[j]).group_id,
        forall|i: int|
            0 <= i < summaries.len() && (#[trigger] summaries[i]).group_id == id ==> {
                &&& summaries[i].local_replica_id == groups[id].local_replica.id
                &&& summaries[i].leader_id == groups[id].spec_leader_id()
            },
{
    let ids = summaries.map_values(|s: GroupSummary| s.group_id);
    assert forall|i: int, j: int| 0 <= i < j < summaries.len() implies (
    #[trigger] summaries[i]).group_id != (#[trigger] summaries[j]).group_id by {
        assert(ids[i] != ids[j]);
    }
    assert(ids.contains(id) == groups.contains_key(id));
    if ids.contains(id) {
        let k = ids.index_of(id);
        assert(summaries[k].group_id == id);
    }
    assert forall|i: int| 0 <= i < summaries.len() && (#[trigger] summaries[i]).group_id == id implies ids.contains(id) by {
        assert(ids[i] == id);
    }
}

/// A new store has the group that the request names, with the replica that the
/// request names as its only member and a follower; it has no group if the
/// request does not name both.
pub proof fn new_store_has_the_requested_group(
    groups: Map<u64, PxGroup>,
    req: AddStoreRequest,
    id: u64,
)
    requires
        initial_groups(groups, req),
    ensures
        groups.contains_key(id) <==> req.group_id == Some(id) && req.replica_id is Some,
        groups.contains_key(id) ==> {
            &&& Some(groups[id].local_replica.id) == req.replica_id
            &&& groups[id].group_id == id
            &&& groups[id].local_replica.role is Follower
            &&& groups[id].remote_replicas@.len() == 0
        },
{
    if let (Some(gid), Some(_)) = (req.group_id, req.replica_id) {
        assert(groups.dom().contains(id) == set![gid].contains(id));
    }
}

/// Removing a member touches no store but the member's, and no group of that
/// store but the member's.
pub proof fn removal_touches_only_its_group(
    before: Map<u64, PxKvStore>,
    after: Map<u64, PxKvStore>,
    sid: u64,
    gid: u64,
    rid: u64,
    follow_up: RemovalFollowUp,
    store: u64,
    group: u64,
)
    requires
        removal_done(before, after, sid, gid, rid, follow_up),
        before.contains_key(sid),
        before[sid].view_groups().contains_key(gid),
        before.contains_key(store),
    ensures
        after.contains_key(store),
        store != sid ==> after[store].view_groups() == before[store].view_groups(),
        after[store].view_groups().contains_key(group) <==> before[store].view_groups().contains_key(
            group,
        ),
        (store != sid || group != gid) && before[store].view_groups().contains_key(group)
            ==> after[store].view_groups()[group] == before[store].view_groups()[group],
        rid != before[sid].view_groups()[gid].local_replica.id,
{
    assert(after.dom().contains(store) == before.dom().contains(store));
}

/// The status of all stores has each store once, with the address that it is
/// bound to.
pub proof fn every_store_is_reported_once(
    s: Seq<StoreStatus>,
    stores: Map<u64, PxKvStore>,
    id: u64,
)
    requires
        statuses_of(s, stores),
    ensures
        stores.contains_key(id) <==> exists|i: int|
            0 <= i < s.len() && (#[trigger] s[i]).store_id == id,
        forall|i: int, j: int|
            0 <= i < j < s.len() ==> (#[trigger] s[i]).store_id != (#[trigger] s[j]).store_id,
        forall|i: int|
            0 <= i < s.len() && (#[trigger] s[i]).store_id == id ==> {
                &&& s[i].listen_addr is Some <==> stores[id].bound_addr is Some
                &&& s[i].listen_addr matches Some(a) ==> a@ == stores[id].bound_addr->Some_0@
            },
{
    let ids = s.map_values(|x: StoreStatus| x.store_id);
    assert forall|i: int, j: int| 0 <= i < j < s.len() implies (#[trigger] s[i]).store_id != (
    #[trigger] s[j]).store_id by {
        assert(ids[i] != ids[j]);
    }
    assert(ids.contains(id) == stores.contains_key(id));
    if ids.contains(id) {
        let k = ids.index_of(id);
        assert(s[k].store_id == id);
    }
    assert forall|i: int| 0 <= i < s.len() && (#[trigger] s[i]).store_id == id implies ids.contains(
        id,
    ) && stores[id].reported_by(s[i]) by {
        assert(ids[i] == id);
    }
}

/// The health of the server is answered by the worst of the stores that it lists.
pub open spec fn health_answered(code: u16, r: HealthResponse) -> bool {
    &&& r.status@ == worst_store_level(r.stores@).name()
    &&& code == if worst_store_level(r.stores@) is Unhealthy {
        503
    } else {
        200u16
    }
    &&& r.messages@.len() == if r.stores@.len() == 0 {
        1nat
    } else {
        0
    }
}

/// The server is told to be unavailable exactly if one of its stores is
/// unhealthy, and to be well exactly if all of them are.
pub proof fn unhealthy_store_makes_the_server_unavailable(code: u16, r: HealthResponse)
    requires
        health_answered(code, r),
    ensures
        code == 503 <==> exists|i: int|
            0 <= i < r.stores@.len() && (#[trigger] r.stores@[i]).status is Unhealthy,
        code == 503 || code == 200,
        r.status@ == "ok"@ <==> forall|i: int|
            0 <= i < r.stores@.len() ==> (#[trigger] r.stores@[i]).status is Healthy,
{
    let s = r.stores@;
    worst_store_tells_the_level(s);
    reveal_strlit("ok");
    reveal_strlit("degraded");
    reveal_strlit("unhealthy");
    if exists|i: int| 0 <= i < s.len() && (#[trigger] s[i]).status is Unhealthy {
        let i = choose|i: int| 0 <= i < s.len() && (#[trigger] s[i]).status is Unhealthy;
        assert(worst_store_level(s).rank() >= s[i].status.rank());
    }
    if worst_store_level(s) is Healthy {
        assert forall|i: int| 0 <= i < s.len() implies (#[trigger] s[i]).status is Healthy by {
            assert(worst_store_level(s).rank() >= s[i].status.rank());
        }
    }
    assert("ok"@.len() == 2 && "degraded"@.len() == 8 && "unhealthy"@.len() == 9);
}

} // verus!
