//! The console's state: the registry, what is tracked of processes, and what the
//! nodes report.

use crate::cluster::status::{GroupStatus, StoreStatus};
use crate::common::scan::decimal_reads_back;
use crate::common::text::{concat2, dec, decimal, same_text};
use crate::console::config::{has_server, ConsoleConfig, ServerEntry};
use crate::console::openapi::OpenApiCache;
use crate::console::reports::{hosts, NodeGroup, NodeHealth, NodeRecord, NodeStore};
use vstd::prelude::*;

verus! {

/// The process that runs on a node.
#[derive(Debug)]
pub struct RuntimePid {
    pub node_id: String,
    pub pid: u32,
}

/// The processes that are tracked, at most one for a node.
#[derive(Debug)]
pub struct RuntimePids {
    pub entries: Vec<RuntimePid>,
}

/// The pid of the last entry for a node.
pub open spec fn pid_in(entries: Seq<RuntimePid>, node: Seq<char>) -> Option<u32>
    decreases entries.len(),
{
    if entries.len() == 0 {
        None
    } else if entries.last().node_id@ == node {
        Some(entries.last().pid)
    } else {
        pid_in(entries.drop_last(), node)
    }
}

/// The pid that is tracked for a node.
pub open spec fn pid_view(pids: RuntimePids, node: Seq<char>) -> Option<u32> {
    pid_in(pids.entries@, node)
}

impl View for RuntimePids {
    type V = Map<Seq<char>, u32>;

    open spec fn view(&self) -> Map<Seq<char>, u32> {
        Map::new(|n: Seq<char>| pid_view(*self, n) is Some, |n: Seq<char>| pid_view(*self, n)->0)
    }
}

/// The entries for other nodes.
pub open spec fn entries_without(entries: Seq<RuntimePid>, node: Seq<char>) -> Seq<RuntimePid>
    decreases entries.len(),
{
    if entries.len() == 0 {
        Seq::empty()
    } else if entries.last().node_id@ == node {
        entries_without(entries.drop_last(), node)
    } else {
        entries_without(entries.drop_last(), node).push(entries.last())
    }
}

proof fn lemma_entries_without(entries: Seq<RuntimePid>, node: Seq<char>, other: Seq<char>)
    ensures
        pid_in(entries_without(entries, node), other) == if other == node {
            None
        } else {
            pid_in(entries, other)
        },
    decreases entries.len(),
{
    if entries.len() > 0 {
        lemma_entries_without(entries.drop_last(), node, other);
        let rest = entries_without(entries.drop_last(), node);
        assert(rest.push(entries.last()).drop_last() =~= rest);
    }
}

impl RuntimePids {
    /// Nothing is tracked.
    pub fn new() -> (p: Self)
        ensures
            p@ == Map::<Seq<char>, u32>::empty(),
    {
        let p = RuntimePids { entries: Vec::new() };
        proof {
            assert(p@ =~= Map::<Seq<char>, u32>::empty());
        }
        p
    }

    /// The pid that is tracked for a node.
    pub fn get(&self, node: &str) -> (p: Option<u32>)
        ensures
            p == pid_view(*self, node@),
    {
        let mut i: usize = self.entries.len();
        proof {
            assert(self.entries@.take(i as int) =~= self.entries@);
        }
        while i > 0
            invariant
                i <= self.entries.len(),
                pid_view(*self, node@) == pid_in(self.entries@.take(i as int), node@),
            decreases i,
        {
            i = i - 1;
            proof {
                assert(self.entries@.take(i + 1).drop_last() =~= self.entries@.take(i as int));
                assert(self.entries@.take(i + 1).last() == self.entries@[i as int]);
            }
            if same_text(self.entries[i].node_id.as_str(), node) {
                return Some(self.entries[i].pid);
            }
        }
        None
    }

    /// Forget the process on a node.
    pub fn clear(&mut self, node: &str)
        ensures
            final(self)@ == old(self)@.remove(node@),
    {
        let mut kept: Vec<RuntimePid> = Vec::new();
        let ghost all = self.entries@;
        let mut i: usize = 0;
        proof {
            assert(all.take(0) =~= Seq::empty());
        }
        while i < self.entries.len()
            invariant
                i <= self.entries.len(),
                all == self.entries@,
                kept@ == entries_without(all.take(i as int), node@),
            decreases self.entries.len() - i,
        {
            proof {
                assert(all.take(i + 1).drop_last() =~= all.take(i as int));
                assert(all.take(i + 1).last() == all[i as int]);
            }
            if !same_text(self.entries[i].node_id.as_str(), node) {
                kept.push(
                    RuntimePid {
                        node_id: self.entries[i].node_id.clone(),
                        pid: self.entries[i].pid,
                    },
                );
            }
            i = i + 1;
        }
        proof {
            assert(all.take(i as int) =~= all);
        }
        self.entries = kept;
        proof {
            assert forall|n: Seq<char>| #[trigger] pid_in(self.entries@, n) == if n == node@ {
                None
            } else {
                pid_in(all, n)
            } by {
                lemma_entries_without(all, node@, n);
            }
            assert(pid_view(*old(self), node@) == pid_in(all, node@));
            assert forall|n: Seq<char>| #[trigger] self@.dom().contains(n) == old(self)@.remove(
                node@,
            ).dom().contains(n) by {
                assert(pid_view(*self, n) == pid_in(self.entries@, n));
            }
            assert forall|n: Seq<char>| #[trigger] self@.dom().contains(n) implies self@[n] == old(
                self,
            )@.remove(node@)[n] by {
                assert(pid_view(*self, n) == pid_in(self.entries@, n));
            }
            assert(self@ =~= old(self)@.remove(node@));
        }
    }

    /// Track the process on a node in place of what was tracked there.
    pub fn set(&mut self, node: &str, pid: u32)
        ensures
            final(self)@ == old(self)@.insert(node@, pid),
    {
        self.clear(node);
        let ghost rest = *self;
        self.entries.push(RuntimePid { node_id: node.to_owned(), pid });
        proof {
            assert(self.entries@.drop_last() =~= rest.entries@);
            assert forall|n: Seq<char>| #[trigger] pid_in(self.entries@, n) == if n == node@ {
                Some(pid)
            } else {
                pid_in(rest.entries@, n)
            } by {}
            assert forall|n: Seq<char>| #[trigger] self@.dom().contains(n) == old(self)@.insert(
                node@,
                pid,
            ).dom().contains(n) by {
                assert(pid_view(*self, n) == pid_in(self.entries@, n));
                assert(rest@.dom().contains(n) == (pid_view(rest, n) is Some));
            }
            assert forall|n: Seq<char>| #[trigger] self@.dom().contains(n) implies self@[n] == old(
                self,
            )@.insert(node@, pid)[n] by {
                assert(pid_view(*self, n) == pid_in(self.entries@, n));
                if n != node@ {
                    assert(rest@.dom().contains(n));
                    assert(rest@[n] == pid_view(rest, n)->0);
                }
            }
            assert(self@ =~= old(self)@.insert(node@, pid));
        }
    }
}

/// What the nodes last reported.
#[derive(Debug)]
pub struct Monitor {
    pub records: Vec<NodeRecord>,
    pub stores: Vec<NodeStore>,
}

/// The records of other nodes.
pub open spec fn records_without(records: Seq<NodeRecord>, node: Seq<char>) -> Seq<NodeRecord>
    decreases records.len(),
{
    if records.len() == 0 {
        Seq::empty()
    } else if records.last().node_id@ == node {
        records_without(records.drop_last(), node)
    } else {
        records_without(records.drop_last(), node).push(records.last())
    }
}

/// What other nodes host.
pub open spec fn stores_without(stores: Seq<NodeStore>, node: Seq<char>) -> Seq<NodeStore>
    decreases stores.len(),
{
    if stores.len() == 0 {
        Seq::empty()
    } else if stores.last().node_id@ == node {
        stores_without(stores.drop_last(), node)
    } else {
        stores_without(stores.drop_last(), node).push(stores.last())
    }
}

impl Monitor {
    /// No node has reported yet.
    pub fn new() -> (m: Self)
        ensures
            m.records.len() == 0,
            m.stores.len() == 0,
    {
        Monitor { records: Vec::new(), stores: Vec::new() }
    }

    /// Forget what a node reported.
    pub fn drop_node(&mut self, node: &str)
        ensures
            final(self).records@ == records_without(old(self).records@, node@),
            final(self).stores@ == stores_without(old(self).stores@, node@),
    {
        let mut records: Vec<NodeRecord> = Vec::new();
        let ghost all_records = self.records@;
        let ghost all_stores = self.stores@;
        proof {
            assert(all_records.take(0) =~= Seq::empty());
            assert(all_stores.take(0) =~= Seq::empty());
        }
        let mut i: usize = 0;
        while i < self.records.len()
            invariant
                i <= self.records.len(),
                all_records == self.records@,
                records@ == records_without(all_records.take(i as int), node@),
            decreases self.records.len() - i,
        {
            proof {
                assert(all_records.take(i + 1).drop_last() =~= all_records.take(i as int));
                assert(all_records.take(i + 1).last() == all_records[i as int]);
            }
            if !same_text(self.records[i].node_id.as_str(), node) {
                records.push(
                    NodeRecord {
                        node_id: self.records[i].node_id.clone(),
                        health: self.records[i].health,
                        last_seen_ms: self.records[i].last_seen_ms,
                    },
                );
            }
            i = i + 1;
        }
        proof {
            assert(all_records.take(i as int) =~= all_records);
        }
        let mut j: usize = 0;
        let ghost mut seen: int = 0;
        proof {
            assert(all_stores.skip(0) =~= all_stores);
            assert(self.stores@ =~= stores_without(all_stores.take(0), node@) + all_stores.skip(0));
        }
        while j < self.stores.len()
            invariant
                0 <= seen <= all_stores.len(),
                j == stores_without(all_stores.take(seen), node@).len(),
                self.stores@ == stores_without(all_stores.take(seen), node@) + all_stores.skip(
                    seen,
                ),
            decreases all_stores.len() - seen,
        {
            let ghost before = self.stores@;
            let ghost kept = stores_without(all_stores.take(seen), node@);
            proof {
                assert(all_stores.take(seen + 1).drop_last() =~= all_stores.take(seen));
                assert(all_stores.take(seen + 1).last() == all_stores[seen]);
                assert(before[j as int] == all_stores[seen]);
            }
            if same_text(self.stores[j].node_id.as_str(), node) {
                let _dropped = self.stores.remove(j);
                proof {
                    assert(self.stores@ =~= kept + all_stores.skip(seen + 1));
                }
            } else {
                proof {
                    assert(self.stores@ =~= kept.push(all_stores[seen]) + all_stores.skip(
                        seen + 1,
                    ));
                }
                j = j + 1;
            }
            proof {
                seen = seen + 1;
            }
        }
        proof {
            assert(seen == all_stores.len());
            assert(all_stores.take(seen) =~= all_stores);
            assert(self.stores@ =~= stores_without(all_stores, node@));
        }
        self.records = records;
    }

    /// Take a node's report in place of what it reported before.
    pub fn set_node_report(&mut self, record: NodeRecord, stores: Vec<NodeStore>)
        requires
            forall|i: int|
                0 <= i < stores.len() ==> (#[trigger] stores@[i]).node_id@ == record.node_id@,
        ensures
            final(self).records@ == records_without(old(self).records@, record.node_id@).push(
                record,
            ),
            final(self).stores@ == stores_without(old(self).stores@, record.node_id@) + stores@,
    {
        self.drop_node(record.node_id.as_str());
        self.records.push(record);
        let mut more: Vec<NodeStore> = stores;
        self.stores.append(&mut more);
    }
}

/// The group of a node's status as the node's report holds it. The leader is
/// unknown where the status names none.
pub open spec fn group_reported(g: GroupStatus) -> NodeGroup {
    NodeGroup {
        group_id: g.group_id,
        replica_id: g.local_replica_id,
        leader_hint: if g.leader_id == 0 {
            None
        } else {
            Some(g.leader_id)
        },
    }
}

/// A node's report says of each store what its topology says.
pub open spec fn reported(topology: Seq<StoreStatus>, node: Seq<char>, stores: Seq<NodeStore>) -> bool {
    &&& stores.len() == topology.len()
    &&& forall|i: int|
        0 <= i < stores.len() ==> {
            &&& (#[trigger] stores[i]).node_id@ == node
            &&& stores[i].store_id == topology[i].store_id
            &&& stores[i].groups@ == topology[i].groups@.map_values(
                |g: GroupStatus| group_reported(g),
            )
        }
}

fn report_of(topology: &Vec<StoreStatus>, node: &str) -> (stores: Vec<NodeStore>)
    ensures
        reported(topology@, node@, stores@),
{
    let mut stores: Vec<NodeStore> = Vec::new();
    let mut i: usize = 0;
    while i < topology.len()
        invariant
            i <= topology.len(),
            reported(topology@.take(i as int), node@, stores@),
        decreases topology.len() - i,
    {
        let status: &StoreStatus = &topology[i];
        let mut groups: Vec<NodeGroup> = Vec::new();
        let ghost all = status.groups@.map_values(|g: GroupStatus| group_reported(g));
        let mut j: usize = 0;
        while j < status.groups.len()
            invariant
                j <= status.groups.len(),
                all == status.groups@.map_values(|g: GroupStatus| group_reported(g)),
                groups@ == all.take(j as int),
            decreases status.groups.len() - j,
        {
            let g: &GroupStatus = &status.groups[j];
            groups.push(
                NodeGroup {
                    group_id: g.group_id,
                    replica_id: g.local_replica_id,
                    leader_hint: if g.leader_id == 0 {
                        None
                    } else {
                        Some(g.leader_id)
                    },
                },
            );
            proof {
                assert(all.take(j + 1) =~= all.take(j as int).push(all[j as int]));
            }
            j = j + 1;
        }
        proof {
            assert(all.take(j as int) =~= all);
        }
        stores.push(
            NodeStore { node_id: node.to_owned(), store_id: status.store_id, groups },
        );
        i = i + 1;
    }
    proof {
        assert(topology@.take(i as int) =~= topology@);
    }
    stores
}

impl Monitor {
    /// Take the topology that a node answered with in place of what the node
    /// reported before. The node is up.
    pub fn record_topology(&mut self, node: &str, topology: &Vec<StoreStatus>)
        ensures
            exists|record: NodeRecord, stores: Seq<NodeStore>|
                {
                    &&& record.node_id@ == node@
                    &&& record.health is Up
                    &&& record.last_seen_ms == 1
                    &&& final(self).records@ == #[trigger] records_without(
                        old(self).records@,
                        node@,
                    ).push(record)
                    &&& #[trigger] reported(topology@, node@, stores)
                    &&& final(self).stores@ == stores_without(old(self).stores@, node@) + stores
                },
    {
        let record = NodeRecord {
            node_id: node.to_owned(),
            health: NodeHealth::Up,
            last_seen_ms: 1,
        };
        let stores: Vec<NodeStore> = report_of(topology, node);
        let ghost r = record;
        let ghost s = stores@;
        self.set_node_report(record, stores);
        proof {
            assert(self.records@ == records_without(old(self).records@, node@).push(r));
            assert(reported(topology@, node@, s));
        }
    }
}

/// The console's state.
#[derive(Debug)]
pub struct AppState {
    pub config: ConsoleConfig,
    /// Where the registry is kept; nowhere, if there is none.
    pub config_path: Option<String>,
    pub openapi_cache: OpenApiCache,
    pub monitor: Monitor,
    pub pids: RuntimePids,
}

/// The id of the server that is listed at `i`.
pub open spec fn listed_id(i: int) -> Seq<char> {
    "srv"@ + dec(i as nat)
}

proof fn lemma_listed_ids_differ(i: int, j: int)
    requires
        0 <= i < j,
    ensures
        listed_id(i) != listed_id(j),
{
    let n = "srv"@.len() as int;
    decimal_reads_back(i as nat, j as nat);
    decimal_reads_back(j as nat, j as nat);
    assert(listed_id(i).skip(n) =~= dec(i as nat));
    assert(listed_id(j).skip(n) =~= dec(j as nat));
}

impl AppState {
    /// State with a registry, which is kept at `path`.
    pub fn with_config(config: ConsoleConfig, path: Option<String>) -> (s: Self)
        ensures
            s.config == config,
            s.config_path == path,
            s.openapi_cache.entries.len() == 0,
            s.monitor.records.len() == 0,
            s.monitor.stores.len() == 0,
            s.pids@ == Map::<Seq<char>, u32>::empty(),
    {
        AppState {
            config,
            config_path: path,
            openapi_cache: OpenApiCache::new(),
            monitor: Monitor::new(),
            pids: RuntimePids::new(),
        }
    }

    /// State with servers that are known by their URLs alone, which is kept
    /// nowhere.
    pub fn new(default_servers: Vec<String>) -> (s: Self)
        ensures
            s.config.wf(),
            s.config.racks.len() == 0,
            s.config.nodes.len() == 0,
            s.config.servers.len() == default_servers.len(),
            forall|i: int|
                0 <= i < default_servers.len() ==> (#[trigger] s.config.servers@[i]).id@
                    == listed_id(i) && s.config.servers@[i] == (ServerEntry {
                    id: s.config.servers@[i].id,
                    url: default_servers@[i],
                    node_id: None,
                    grpc_url: None,
                    mgmt_port: None,
                    grpc_port: None,
                    auto_start: false,
                    binary: None,
                    election_profile: None,
                    pid: None,
                }),
            s.config_path is None,
            s.openapi_cache.entries.len() == 0,
            s.monitor.records.len() == 0,
            s.monitor.stores.len() == 0,
            s.pids@ == Map::<Seq<char>, u32>::empty(),
    {
        let mut config: ConsoleConfig = ConsoleConfig::new();
        let mut i: usize = 0;
        while i < default_servers.len()
            invariant
                i <= default_servers.len(),
                config.wf(),
                config.racks.len() == 0,
                config.nodes.len() == 0,
                config.servers.len() == i,
                forall|k: int|
                    0 <= k < i ==> (#[trigger] config.servers@[k]).id@ == listed_id(k)
                        && config.servers@[k] == (ServerEntry {
                        id: config.servers@[k].id,
                        url: default_servers@[k],
                        node_id: None,
                        grpc_url: None,
                        mgmt_port: None,
                        grpc_port: None,
                        auto_start: false,
                        binary: None,
                        election_profile: None,
                        pid: None,
                    }),
            decreases default_servers.len() - i,
        {
            let n: String = decimal(i as u64);
            let id: String = concat2("srv", n.as_str());
            let ghost before = config.servers@;
            proof {
                assert(id@ == listed_id(i as int));
                if has_server(before, id@) {
                    let k = choose|k: int|
                        0 <= k < before.len() && (#[trigger] before[k]).id@ == id@;
                    lemma_listed_ids_differ(k, i as int);
                }
            }
            let _added = config.add_server(ServerEntry::new(id, default_servers[i].clone()));
            proof {
                assert(forall|k: int| 0 <= k < i ==> #[trigger] config.servers@[k] == before[k]);
            }
            i = i + 1;
        }
        AppState::with_config(config, None)
    }
}

// ── Laws of the state ────────────────────────────────────────────
/// After a report, a node hosts what it reported and nothing else, and what
/// other nodes host stays.
pub proof fn report_replaces_the_one_before(
    before: Seq<NodeStore>,
    node: Seq<char>,
    reported: Seq<NodeStore>,
    other: Seq<char>,
    sid: u64,
)
    requires
        forall|i: int| 0 <= i < reported.len() ==> (#[trigger] reported[i]).node_id@ == node,
    ensures
        hosts(stores_without(before, node) + reported, other, sid) <==> if other == node {
            hosts(reported, node, sid)
        } else {
            hosts(before, other, sid)
        },
{
    lemma_stores_without(before, node, other, sid);
    let rest = stores_without(before, node);
    let all = rest + reported;
    if hosts(all, other, sid) {
        let i = choose|i: int|
            0 <= i < all.len() && (#[trigger] all[i]).store_id == sid && all[i].node_id@ == other;
        if i < rest.len() {
            assert(rest[i] == all[i]);
        } else {
            assert(reported[i - rest.len()] == all[i]);
        }
    }
    if hosts(rest, other, sid) {
        let i = choose|i: int|
            0 <= i < rest.len() && (#[trigger] rest[i]).store_id == sid && rest[i].node_id@
                == other;
        assert(all[i] == rest[i]);
    }
    if hosts(reported, other, sid) {
        let i = choose|i: int|
            0 <= i < reported.len() && (#[trigger] reported[i]).store_id == sid
                && reported[i].node_id@ == other;
        assert(all[rest.len() + i] == reported[i]);
    }
}

/// What remains after a node was dropped is what other nodes reported.
pub proof fn dropping_a_node_forgets_what_it_reported(
    records: Seq<NodeRecord>,
    stores: Seq<NodeStore>,
    node: Seq<char>,
    r: NodeRecord,
    s: NodeStore,
)
    ensures
        records_without(records, node).contains(r) <==> records.contains(r) && r.node_id@ != node,
        stores_without(stores, node).contains(s) <==> stores.contains(s) && s.node_id@ != node,
    decreases records.len() + stores.len(),
{
    if records.len() > 0 {
        let front = records.drop_last();
        dropping_a_node_forgets_what_it_reported(front, stores, node, r, s);
        assert(records =~= front.push(records.last()));
        lemma_push_contains(front, records.last(), r);
        lemma_push_contains(records_without(front, node), records.last(), r);
    } else if stores.len() > 0 {
        let front = stores.drop_last();
        dropping_a_node_forgets_what_it_reported(records, front, node, r, s);
        assert(stores =~= front.push(stores.last()));
        lemma_push_contains(front, stores.last(), s);
        lemma_push_contains(stores_without(front, node), stores.last(), s);
    }
}

proof fn lemma_push_contains<T>(front: Seq<T>, last: T, x: T)
    ensures
        front.push(last).contains(x) <==> front.contains(x) || x == last,
{
    let all = front.push(last);
    if all.contains(x) {
        let i = all.index_of(x);
        if i < front.len() {
            assert(front[i] == x);
        }
    }
    if front.contains(x) {
        let i = front.index_of(x);
        assert(all[i] == x);
    }
    assert(all[front.len() as int] == last);
}

proof fn lemma_stores_without(
    stores: Seq<NodeStore>,
    node: Seq<char>,
    other: Seq<char>,
    sid: u64,
)
    ensures
        hosts(stores_without(stores, node), other, sid) <==> other != node && hosts(
            stores,
            other,
            sid,
        ),
    decreases stores.len(),
{
    if stores.len() > 0 {
        let front = stores.drop_last();
        lemma_stores_without(front, node, other, sid);
        let rest = stores_without(front, node);
        let last = stores.last();
        if hosts(stores, other, sid) {
            let i = choose|i: int|
                0 <= i < stores.len() && (#[trigger] stores[i]).store_id == sid
                    && stores[i].node_id@ == other;
            if i < front.len() {
                assert(front[i] == stores[i]);
            }
        }
        if hosts(front, other, sid) {
            let i = choose|i: int|
                0 <= i < front.len() && (#[trigger] front[i]).store_id == sid
                    && front[i].node_id@ == other;
            assert(stores[i] == front[i]);
        }
        if last.node_id@ != node {
            let all = rest.push(last);
            if hosts(all, other, sid) {
                let i = choose|i: int|
                    0 <= i < all.len() && (#[trigger] all[i]).store_id == sid && all[i].node_id@
                        == other;
                if i < rest.len() {
                    assert(rest[i] == all[i]);
                } else {
                    assert(stores[stores.len() - 1] == last);
                }
            }
            if hosts(rest, other, sid) {
                let i = choose|i: int|
                    0 <= i < rest.len() && (#[trigger] rest[i]).store_id == sid
                        && rest[i].node_id@ == other;
                assert(all[i] == rest[i]);
            }
            assert(all[rest.len() as int] == last);
        }
    }
}

/// What is tracked for other nodes stays, in its order.
pub proof fn other_processes_stay_tracked(entries: Seq<RuntimePid>, node: Seq<char>)
    ensures
        entries_without(entries, node) == entries.filter(|e: RuntimePid| e.node_id@ != node),
    decreases entries.len(),
{
    reveal(Seq::filter);
    if entries.len() > 0 {
        other_processes_stay_tracked(entries.drop_last(), node);
    }
}

/// The records of other nodes stay, in their order.
pub proof fn other_records_stay(records: Seq<NodeRecord>, node: Seq<char>)
    ensures
        records_without(records, node) == records.filter(|r: NodeRecord| r.node_id@ != node),
    decreases records.len(),
{
    reveal(Seq::filter);
    if records.len() > 0 {
        other_records_stay(records.drop_last(), node);
    }
}

/// What other nodes reported stays, in its order.
pub proof fn other_reports_stay(stores: Seq<NodeStore>, node: Seq<char>)
    ensures
        stores_without(stores, node) == stores.filter(|s: NodeStore| s.node_id@ != node),
    decreases stores.len(),
{
    reveal(Seq::filter);
    if stores.len() > 0 {
        other_reports_stay(stores.drop_last(), node);
    }
}

/// The last process that was noted for a node is the one that is tracked, and
/// none is tracked exactly if none was noted.
pub proof fn last_process_is_tracked(entries: Seq<RuntimePid>, node: Seq<char>)
    ensures
        match pid_in(entries, node) {
            Some(pid) => exists|i: int|
                0 <= i < entries.len() && (#[trigger] entries[i]).node_id@ == node && entries[i].pid
                    == pid && forall|j: int|
                    i < j < entries.len() ==> (#[trigger] entries[j]).node_id@ != node,
            None => forall|i: int|
                0 <= i < entries.len() ==> (#[trigger] entries[i]).node_id@ != node,
        },
    decreases entries.len(),
{
    if entries.len() > 0 {
        let front = entries.drop_last();
        assert(entries[entries.len() - 1] == entries.last());
        assert forall|i: int| 0 <= i < front.len() implies front[i] == #[trigger] entries[i] by {}
        if entries.last().node_id@ != node {
            last_process_is_tracked(front, node);
            if let Some(pid) = pid_in(front, node) {
                let i = choose|i: int|
                    0 <= i < front.len() && (#[trigger] front[i]).node_id@ == node && front[i].pid
                        == pid && forall|j: int|
                        i < j < front.len() ==> (#[trigger] front[j]).node_id@ != node;
                assert(entries[i].node_id@ == node);
                assert forall|j: int| i < j < entries.len() implies (
                #[trigger] entries[j]).node_id@ != node by {
                    if j < front.len() {
                        assert(front[j].node_id@ != node);
                    }
                }
            }
        }
    }
}

/// A node's report names a leader exactly where the node knows one.
pub proof fn known_leader_is_reported(g: GroupStatus)
    ensures
        group_reported(g).group_id == g.group_id,
        group_reported(g).replica_id == g.local_replica_id,
        g.leader_id != 0 ==> group_reported(g).leader_hint == Some(g.leader_id),
        g.leader_id == 0 ==> group_reported(g).leader_hint is None,
{
}

/// What a node reports of its stores is what is kept of them: the same stores
/// and groups in the same order, with the replica that the node hosts of each
/// group, and the group's leader where the node knows one.
pub proof fn report_says_what_the_node_said(
    topology: Seq<StoreStatus>,
    node: Seq<char>,
    stores: Seq<NodeStore>,
    i: int,
    j: int,
)
    requires
        reported(topology, node, stores),
        0 <= i < topology.len(),
    ensures
        stores.len() == topology.len(),
        stores[i].node_id@ == node,
        stores[i].store_id == topology[i].store_id,
        stores[i].groups@.len() == topology[i].groups@.len(),
        0 <= j < topology[i].groups@.len() ==> {
            let g = topology[i].groups@[j];
            &&& stores[i].groups@[j].group_id == g.group_id
            &&& stores[i].groups@[j].replica_id == g.local_replica_id
            &&& g.leader_id != 0 ==> stores[i].groups@[j].leader_hint == Some(g.leader_id)
            &&& g.leader_id == 0 ==> stores[i].groups@[j].leader_hint is None
        },
{
}

} // verus!
