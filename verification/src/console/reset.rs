//! Tearing everything down: groups, stores, server processes, nodes and racks,
//! in this order.

use crate::common::text::texts;
use crate::console::config::{
    has_node, has_rack, nodes_without, rack_in_use, racks_without, servers_without, ConsoleConfig,
    NodeEntry, RackEntry, ServerEntry,
};
use crate::console::lifecycle::ResetResult;
use crate::console::mgmt::{call_views, remove_store_calls, store_removal, ReplicaView};
use crate::console::plan::{call_to, url_of, Call, CallView, RequestView};
use crate::console::replicas::{group_removal, remove_group_calls};
use crate::console::reports::{
    get_store, hosted, list_groups, lists_stores, mentions, nodes_hosting, placed, placements,
    resolve_group, store_ids, tally, GroupSummary, NodeRecord, NodeStore, Placement,
};
use crate::console::state::{
    dropping_a_node_forgets_what_it_reported, pid_view, records_without, stores_without, AppState,
    Monitor, RuntimePids,
};
use vstd::prelude::*;

verus! {

/// The calls that send a request to the nodes of replicas, as far as they have
/// servers.
pub open spec fn calls_at(
    servers: Seq<ServerEntry>,
    all: Seq<Placement>,
    request: RequestView,
) -> Seq<CallView>
    decreases all.len(),
{
    if all.len() == 0 {
        Seq::empty()
    } else {
        let front = calls_at(servers, all.drop_last(), request);
        if url_of(servers, all.last().1) is Some {
            front.push(call_to(servers, all.last().1, request))
        } else {
            front
        }
    }
}

proof fn lemma_removal_by_placement(
    servers: Seq<ServerEntry>,
    replicas: Seq<ReplicaView>,
    request: RequestView,
)
    ensures
        group_removal(servers, replicas, request) == calls_at(servers, placed(replicas), request),
    decreases replicas.len(),
{
    if replicas.len() > 0 {
        lemma_removal_by_placement(servers, replicas.drop_last(), request);
        assert(placed(replicas).drop_last() =~= placed(replicas.drop_last()));
        assert(placed(replicas).last() == (replicas.last().replica_id, replicas.last().node_id@));
    } else {
        assert(placed(replicas).len() == 0);
    }
}

/// The ids of the groups of a store, each once.
pub open spec fn group_ids(reports: Seq<NodeStore>, sid: u64) -> Seq<u64> {
    if hosted(reports, sid) {
        tally(mentions(reports, sid)).map_values(|g: GroupSummary| g.group_id)
    } else {
        Seq::empty()
    }
}

/// What is still to be removed from the nodes.
#[derive(Debug)]
pub struct Teardown {
    /// The stores, in the order in which they go.
    pub stores: Vec<u64>,
    /// The groups of the first store, once they were listed.
    pub groups: Option<Vec<u64>>,
}

/// A teardown as it is reasoned about.
#[verifier::ext_equal]
pub struct TeardownView {
    pub stores: Seq<u64>,
    pub groups: Option<Seq<u64>>,
}

impl View for Teardown {
    type V = TeardownView;

    open spec fn view(&self) -> TeardownView {
        TeardownView {
            stores: self.stores@,
            groups: match self.groups {
                Some(g) => Some(g@),
                None => None,
            },
        }
    }
}

impl TeardownView {
    /// What is left after the next step.
    pub open spec fn stepped(self, reports: Seq<NodeStore>) -> TeardownView {
        match self.groups {
            None => TeardownView { groups: Some(group_ids(reports, self.stores[0])), ..self },
            Some(g) => if g.len() > 0 {
                TeardownView { groups: Some(g.skip(1)), ..self }
            } else {
                TeardownView { stores: self.stores.skip(1), groups: None }
            },
        }
    }

    /// The calls of the next step: none while the groups of a store are listed,
    /// then those that remove its groups, one group in a step, and at last those
    /// that remove the store itself.
    pub open spec fn calls(self, servers: Seq<ServerEntry>, reports: Seq<NodeStore>) -> Seq<
        CallView,
    > {
        let sid = self.stores[0];
        match self.groups {
            None => Seq::empty(),
            Some(g) => if g.len() > 0 {
                calls_at(
                    servers,
                    placements(reports, sid, g[0]),
                    RequestView::RemoveGroup { store_id: sid, group_id: g[0] },
                )
            } else {
                store_removal(
                    servers,
                    nodes_hosting(reports, sid),
                    RequestView::RemoveStore { store_id: sid },
                )
            },
        }
    }

    /// All calls that follow, if the nodes go on reporting the same.
    pub open spec fn calls_ahead(self, servers: Seq<ServerEntry>, reports: Seq<NodeStore>) -> Seq<
        CallView,
    >
        decreases
            self.stores.len(),
            if self.groups is None {
                1int
            } else {
                0
            },
            match self.groups {
                Some(g) => g.len(),
                None => 0,
            },
    {
        if self.stores.len() == 0 {
            Seq::empty()
        } else {
            self.calls(servers, reports) + self.stepped(reports).calls_ahead(servers, reports)
        }
    }
}

/// Begin to remove all stores that nodes host.
pub fn begin_teardown(reports: &Vec<NodeStore>) -> (t: Teardown)
    ensures
        lists_stores(t.stores@, reports@),
        t.groups is None,
{
    Teardown { stores: store_ids(reports), groups: None }
}

impl Teardown {
    /// The calls of the next step, from what the nodes report by then; `None`
    /// when nothing is left.
    pub fn next_calls(&mut self, cfg: &ConsoleConfig, reports: &Vec<NodeStore>) -> (r: Option<
        Vec<Call>,
    >)
        ensures
            match r {
                Some(calls) => {
                    &&& old(self)@.stores.len() > 0
                    &&& call_views(calls@) == old(self)@.calls(cfg.servers@, reports@)
                    &&& final(self)@ == old(self)@.stepped(reports@)
                },
                None => old(self)@.stores.len() == 0 && *final(self) == *old(self),
            },
    {
        if self.stores.len() == 0 {
            return None;
        }
        let sid: u64 = self.stores[0];
        let ghost before = self@;
        match self.groups.take() {
            None => {
                let ids: Vec<u64> = listed_groups(reports, sid);
                self.groups = Some(ids);
                let calls: Vec<Call> = Vec::new();
                proof {
                    assert(call_views(calls@) =~= Seq::empty());
                    assert(self@ =~= before.stepped(reports@));
                }
                Some(calls)
            },
            Some(mut groups) => if groups.len() > 0 {
                let gid: u64 = groups.remove(0);
                proof {
                    assert(groups@ =~= before.groups->0.skip(1));
                }
                self.groups = Some(groups);
                Some(group_calls(cfg, reports, sid, gid))
            } else {
                let _sid: u64 = self.stores.remove(0);
                proof {
                    assert(self@.stores =~= before.stores.skip(1));
                }
                Some(store_calls(cfg, reports, sid))
            },
        }
    }
}

fn listed_groups(reports: &Vec<NodeStore>, sid: u64) -> (ids: Vec<u64>)
    ensures
        ids@ == group_ids(reports@, sid),
{
    let mut ids: Vec<u64> = Vec::new();
    if let Ok(groups) = list_groups(reports, sid) {
        let mut i: usize = 0;
        while i < groups.len()
            invariant
                i <= groups.len(),
                ids@ == groups@.map_values(|g: GroupSummary| g.group_id).take(i as int),
            decreases groups.len() - i,
        {
            ids.push(groups[i].group_id);
            i = i + 1;
            proof {
                let all = groups@.map_values(|g: GroupSummary| g.group_id);
                assert(all.take(i as int) =~= all.take(i - 1).push(all[i - 1]));
            }
        }
        proof {
            let all = groups@.map_values(|g: GroupSummary| g.group_id);
            assert(all.take(i as int) =~= all);
        }
    }
    ids
}

/// The calls that remove a group from the nodes that report a replica of it.
fn group_calls(cfg: &ConsoleConfig, reports: &Vec<NodeStore>, sid: u64, gid: u64) -> (calls: Vec<
    Call,
>)
    ensures
        call_views(calls@) == calls_at(
            cfg.servers@,
            placements(reports@, sid, gid),
            RequestView::RemoveGroup { store_id: sid, group_id: gid },
        ),
{
    let ghost request = RequestView::RemoveGroup { store_id: sid, group_id: gid };
    if let Some(v) = resolve_group(reports, sid, gid) {
        proof {
            lemma_removal_by_placement(cfg.servers@, v.replicas@, request);
        }
        if let Ok(calls) = remove_group_calls(cfg, Some(&v), sid, gid) {
            return calls;
        }
    }
    let calls: Vec<Call> = Vec::new();
    proof {
        assert(call_views(calls@) =~= Seq::empty());
    }
    calls
}

/// The calls that remove a store from the nodes that report it.
fn store_calls(cfg: &ConsoleConfig, reports: &Vec<NodeStore>, sid: u64) -> (calls: Vec<Call>)
    ensures
        call_views(calls@) == store_removal(
            cfg.servers@,
            nodes_hosting(reports@, sid),
            RequestView::RemoveStore { store_id: sid },
        ),
{
    match get_store(reports, sid) {
        Ok(v) => remove_store_calls(cfg, sid, &v.nodes),
        Err(_) => {
            let calls: Vec<Call> = Vec::new();
            proof {
                lemma_nobody_hosts(reports@, sid);
                assert(call_views(calls@) =~= Seq::empty());
            }
            calls
        },
    }
}

proof fn lemma_nobody_hosts(reports: Seq<NodeStore>, sid: u64)
    requires
        !hosted(reports, sid),
    ensures
        nodes_hosting(reports, sid).len() == 0,
    decreases reports.len(),
{
    if reports.len() > 0 {
        let front = reports.drop_last();
        assert(reports[reports.len() - 1].store_id != sid);
        if hosted(front, sid) {
            let i = choose|i: int| 0 <= i < front.len() && (#[trigger] front[i]).store_id == sid;
            assert(reports[i].store_id == sid);
        }
        lemma_nobody_hosts(front, sid);
    }
}

/// A process on this machine that is tracked for a node.
#[derive(Debug)]
pub struct LocalProcess {
    pub node_id: String,
    pub pid: u32,
}

/// The nodes on this machine for which a process is tracked, with it.
pub open spec fn local_processes(nodes: Seq<NodeEntry>, pids: RuntimePids) -> Seq<(Seq<char>, u32)>
    decreases nodes.len(),
{
    if nodes.len() == 0 {
        Seq::empty()
    } else {
        let front = local_processes(nodes.drop_last(), pids);
        match pid_view(pids, nodes.last().id@) {
            Some(pid) => if nodes.last().is_remote() {
                front
            } else {
                front.push((nodes.last().id@, pid))
            },
            None => front,
        }
    }
}

/// Processes as pairs.
pub open spec fn process_views(p: Seq<LocalProcess>) -> Seq<(Seq<char>, u32)> {
    p.map_values(|x: LocalProcess| (x.node_id@, x.pid))
}

/// The processes that a reset stops. Those on other machines go on.
pub fn processes_to_stop(cfg: &ConsoleConfig, pids: &RuntimePids) -> (r: Vec<LocalProcess>)
    ensures
        process_views(r@) == local_processes(cfg.nodes@, *pids),
{
    let mut r: Vec<LocalProcess> = Vec::new();
    let ghost all = cfg.nodes@;
    let mut i: usize = 0;
    proof {
        assert(all.take(0) =~= Seq::empty());
        assert(process_views(r@) =~= Seq::empty());
    }
    while i < cfg.nodes.len()
        invariant
            i <= cfg.nodes.len(),
            all == cfg.nodes@,
            process_views(r@) == local_processes(all.take(i as int), *pids),
        decreases cfg.nodes.len() - i,
    {
        proof {
            assert(all.take(i + 1).drop_last() =~= all.take(i as int));
            assert(all.take(i + 1).last() == all[i as int]);
        }
        if let Some(pid) = pids.get(cfg.nodes[i].id.as_str()) {
            if !cfg.nodes[i].ssh_enabled() {
                let ghost before = r@;
                r.push(LocalProcess { node_id: cfg.nodes[i].id.clone(), pid });
                proof {
                    assert(process_views(r@) =~= process_views(before).push(
                        (all[i as int].id@, pid),
                    ));
                }
            }
        }
        i = i + 1;
    }
    proof {
        assert(all.take(i as int) =~= all);
    }
    r
}

/// The nodes whose process was stopped.
pub open spec fn nodes_stopped(processes: Seq<LocalProcess>, sent: Seq<bool>) -> Seq<Seq<char>>
    decreases processes.len(),
{
    if processes.len() == 0 {
        Seq::empty()
    } else {
        let n = processes.len() - 1;
        let front = nodes_stopped(processes.drop_last(), sent);
        if n < sent.len() && sent[n] {
            front.push(processes[n].node_id@)
        } else {
            front
        }
    }
}

/// The answer of a reset, where `sent` says of each process whether it was
/// stopped.
pub fn reset_result(processes: &Vec<LocalProcess>, sent: &Vec<bool>) -> (r: ResetResult)
    ensures
        texts(r.stopped@) == nodes_stopped(processes@, sent@),
{
    let mut stopped: Vec<String> = Vec::new();
    let mut i: usize = 0;
    proof {
        assert(processes@.take(0) =~= Seq::empty());
        assert(texts(stopped@) =~= Seq::empty());
    }
    while i < processes.len()
        invariant
            i <= processes.len(),
            texts(stopped@) == nodes_stopped(processes@.take(i as int), sent@),
        decreases processes.len() - i,
    {
        proof {
            assert(processes@.take(i + 1).drop_last() =~= processes@.take(i as int));
        }
        if i < sent.len() && sent[i] {
            let ghost before = stopped@;
            stopped.push(processes[i].node_id.clone());
            proof {
                assert(texts(stopped@) =~= texts(before).push(processes@[i as int].node_id@));
            }
        }
        i = i + 1;
    }
    proof {
        assert(processes@.take(i as int) =~= processes@);
    }
    ResetResult { stopped }
}

/// The server is on one of the nodes.
pub open spec fn on_one_of(s: ServerEntry, nodes: Seq<NodeEntry>) -> bool {
    exists|i: int| 0 <= i < nodes.len() && s.is_on((#[trigger] nodes[i]).id@)
}

/// The servers that are on none of the nodes.
pub open spec fn servers_elsewhere(servers: Seq<ServerEntry>, nodes: Seq<NodeEntry>) -> Seq<
    ServerEntry,
>
    decreases servers.len(),
{
    if servers.len() == 0 {
        Seq::empty()
    } else if on_one_of(servers.last(), nodes) {
        servers_elsewhere(servers.drop_last(), nodes)
    } else {
        servers_elsewhere(servers.drop_last(), nodes).push(servers.last())
    }
}

proof fn lemma_nodes_without_first(nodes: Seq<NodeEntry>, n: int)
    requires
        0 < n <= nodes.len(),
        forall|i: int, j: int|
            0 <= i < j < nodes.len() ==> (#[trigger] nodes[i]).id@ != (#[trigger] nodes[j]).id@,
    ensures
        nodes_without(nodes.take(n), nodes[0].id@) == nodes.take(n).skip(1),
    decreases n,
{
    let part = nodes.take(n);
    assert(part.drop_last() =~= nodes.take(n - 1));
    if n == 1 {
        assert(nodes_without(part.drop_last(), nodes[0].id@) =~= Seq::empty());
        assert(part.skip(1) =~= Seq::empty());
    } else {
        lemma_nodes_without_first(nodes, n - 1);
        assert(nodes[0].id@ != nodes[n - 1].id@);
        assert(part.skip(1) =~= nodes.take(n - 1).skip(1).push(nodes[n - 1]));
    }
}

proof fn lemma_racks_without_first(racks: Seq<RackEntry>, n: int)
    requires
        0 < n <= racks.len(),
        forall|i: int, j: int|
            0 <= i < j < racks.len() ==> (#[trigger] racks[i]).id@ != (#[trigger] racks[j]).id@,
    ensures
        racks_without(racks.take(n), racks[0].id@) == racks.take(n).skip(1),
    decreases n,
{
    let part = racks.take(n);
    assert(part.drop_last() =~= racks.take(n - 1));
    if n == 1 {
        assert(racks_without(part.drop_last(), racks[0].id@) =~= Seq::empty());
        assert(part.skip(1) =~= Seq::empty());
    } else {
        lemma_racks_without_first(racks, n - 1);
        assert(racks[0].id@ != racks[n - 1].id@);
        assert(part.skip(1) =~= racks.take(n - 1).skip(1).push(racks[n - 1]));
    }
}

proof fn lemma_servers_elsewhere_step(servers: Seq<ServerEntry>, nodes: Seq<NodeEntry>, k: int)
    requires
        0 <= k < nodes.len(),
    ensures
        servers_without(servers_elsewhere(servers, nodes.take(k)), nodes[k].id@)
            == servers_elsewhere(servers, nodes.take(k + 1)),
    decreases servers.len(),
{
    let few = nodes.take(k);
    let more = nodes.take(k + 1);
    if servers.len() > 0 {
        lemma_servers_elsewhere_step(servers.drop_last(), nodes, k);
        let last = servers.last();
        let front = servers_elsewhere(servers.drop_last(), few);
        assert(on_one_of(last, more) <==> on_one_of(last, few) || last.is_on(nodes[k].id@)) by {
            if on_one_of(last, few) {
                let i = choose|i: int| 0 <= i < few.len() && last.is_on((#[trigger] few[i]).id@);
                assert(more[i] == few[i]);
            }
            if last.is_on(nodes[k].id@) {
                assert(more[k] == nodes[k]);
            }
            if on_one_of(last, more) {
                let i = choose|i: int| 0 <= i < more.len() && last.is_on((#[trigger] more[i]).id@);
                if i < k {
                    assert(few[i] == more[i]);
                }
            }
        }
        if !on_one_of(last, few) {
            assert(front.push(last).drop_last() =~= front);
        }
    }
}

proof fn lemma_servers_elsewhere_none(servers: Seq<ServerEntry>, nodes: Seq<NodeEntry>)
    requires
        nodes.len() == 0,
    ensures
        servers_elsewhere(servers, nodes) == servers,
    decreases servers.len(),
{
    if servers.len() > 0 {
        lemma_servers_elsewhere_none(servers.drop_last(), nodes);
        assert(servers.drop_last().push(servers.last()) =~= servers);
    }
}

/// Of the processes that were tracked before, those on the nodes are forgotten,
/// and nothing else.
pub open spec fn untracked(
    before: Map<Seq<char>, u32>,
    after: Map<Seq<char>, u32>,
    nodes: Seq<NodeEntry>,
) -> bool {
    &&& forall|n: Seq<char>| #[trigger]
        after.dom().contains(n) <==> before.dom().contains(n) && !has_node(nodes, n)
    &&& forall|n: Seq<char>| #[trigger] after.dom().contains(n) ==> after[n] == before[n]
}

/// Of what was reported before, what the nodes reported is forgotten, and nothing
/// else.
pub open spec fn forgotten(before: Monitor, after: Monitor, nodes: Seq<NodeEntry>) -> bool {
    &&& forall|r: NodeRecord| #[trigger]
        after.records@.contains(r) <==> before.records@.contains(r) && !has_node(
            nodes,
            r.node_id@,
        )
    &&& forall|s: NodeStore| #[trigger]
        after.stores@.contains(s) <==> before.stores@.contains(s) && !has_node(nodes, s.node_id@)
}

proof fn lemma_forgotten_step(
    before: Monitor,
    known: Monitor,
    after: Monitor,
    nodes: Seq<NodeEntry>,
    node: NodeEntry,
)
    requires
        forgotten(before, known, nodes),
        after.records@ == records_without(known.records@, node.id@),
        after.stores@ == stores_without(known.stores@, node.id@),
    ensures
        forgotten(before, after, nodes.push(node)),
{
    assert forall|n: Seq<char>| #[trigger] has_node(nodes.push(node), n) <==> has_node(nodes, n)
        || node.id@ == n by {
        let more = nodes.push(node);
        if has_node(nodes, n) {
            let i = choose|i: int| 0 <= i < nodes.len() && (#[trigger] nodes[i]).id@ == n;
            assert(more[i].id@ == n);
        }
        if has_node(more, n) {
            let i = choose|i: int| 0 <= i < more.len() && (#[trigger] more[i]).id@ == n;
            if i < nodes.len() {
                assert(nodes[i].id@ == n);
            }
        }
        assert(more[nodes.len() as int] == node);
    }
    assert forall|r: NodeRecord| #[trigger]
        after.records@.contains(r) <==> before.records@.contains(r) && !has_node(
            nodes.push(node),
            r.node_id@,
        ) by {
        dropping_a_node_forgets_what_it_reported(
            known.records@,
            Seq::empty(),
            node.id@,
            r,
            arbitrary(),
        );
        assert(known.records@.contains(r) <==> before.records@.contains(r) && !has_node(
            nodes,
            r.node_id@,
        ));
    }
    assert forall|s: NodeStore| #[trigger]
        after.stores@.contains(s) <==> before.stores@.contains(s) && !has_node(
            nodes.push(node),
            s.node_id@,
        ) by {
        dropping_a_node_forgets_what_it_reported(
            Seq::empty(),
            known.stores@,
            node.id@,
            arbitrary(),
            s,
        );
        assert(known.stores@.contains(s) <==> before.stores@.contains(s) && !has_node(
            nodes,
            s.node_id@,
        ));
    }
}

/// Remove all nodes with the servers on them, and all racks, from the registry,
/// and all that is tracked for the nodes.
pub fn clear_registry(cfg: &mut ConsoleConfig, pids: &mut RuntimePids, monitor: &mut Monitor)
    requires
        old(cfg).wf(),
    ensures
        final(cfg).wf(),
        final(cfg).racks.len() == 0,
        final(cfg).nodes.len() == 0,
        final(cfg).servers@ == servers_elsewhere(old(cfg).servers@, old(cfg).nodes@),
        untracked(old(pids)@, final(pids)@, old(cfg).nodes@),
        forgotten(*old(monitor), *final(monitor), old(cfg).nodes@),
{
    let ghost all = cfg.nodes@;
    let ghost servers = cfg.servers@;
    let ghost mut done: int = 0;
    proof {
        assert(all.skip(0) =~= all);
        lemma_servers_elsewhere_none(servers, all.take(0));
    }
    while cfg.nodes.len() > 0
        invariant
            cfg.wf(),
            all == old(cfg).nodes@,
            0 <= done <= all.len(),
            cfg.nodes@ == all.skip(done),
            cfg.servers@ == servers_elsewhere(servers, all.take(done)),
            untracked(old(pids)@, pids@, all.take(done)),
            forgotten(*old(monitor), *monitor, all.take(done)),
        decreases cfg.nodes.len(),
    {
        let id: String = cfg.nodes[0].id.clone();
        let ghost rest = cfg.nodes@;
        proof {
            assert(rest[0] == all[done]);
            assert(has_node(rest, id@));
            assert(forall|i: int| 0 <= i < rest.len() ==> #[trigger] rest[i] == cfg.nodes[i]);
            lemma_nodes_without_first(rest, rest.len() as int);
            assert(rest.take(rest.len() as int) =~= rest);
            assert(rest.skip(1) =~= all.skip(done + 1));
            lemma_servers_elsewhere_step(servers, all, done);
        }
        pids.clear(id.as_str());
        let _server: bool = cfg.remove_server_for_node(id.as_str());
        let _node = cfg.remove_node(id.as_str());
        let ghost known = *monitor;
        monitor.drop_node(id.as_str());
        proof {
            assert(all.take(done + 1) =~= all.take(done).push(all[done]));
            lemma_forgotten_step(*old(monitor), known, *monitor, all.take(done), all[done]);
            assert forall|n: Seq<char>| #[trigger] has_node(all.take(done + 1), n) <==> has_node(
                all.take(done),
                n,
            ) || n == id@ by {
                let few = all.take(done);
                let more = all.take(done + 1);
                if has_node(few, n) {
                    let i = choose|i: int| 0 <= i < few.len() && (#[trigger] few[i]).id@ == n;
                    assert(more[i].id@ == n);
                }
                if has_node(more, n) {
                    let i = choose|i: int| 0 <= i < more.len() && (#[trigger] more[i]).id@ == n;
                    if i < done {
                        assert(few[i].id@ == n);
                    }
                }
                assert(more[done].id@ == id@);
            }
            assert(untracked(old(pids)@, pids@, all.take(done + 1)));
            done = done + 1;
        }
    }
    proof {
        assert(done == all.len());
        assert(all.take(done) =~= all);
    }
    while cfg.racks.len() > 0
        invariant
            cfg.wf(),
            cfg.nodes.len() == 0,
            cfg.servers@ == servers_elsewhere(servers, all),
        decreases cfg.racks.len(),
    {
        let id: String = cfg.racks[0].id.clone();
        let ghost rest = cfg.racks@;
        proof {
            assert(rest[0].id@ == id@);
            assert(has_rack(rest, id@));
            assert(!rack_in_use(cfg.nodes@, id@));
            assert(forall|i: int| 0 <= i < rest.len() ==> #[trigger] rest[i] == cfg.racks[i]);
            lemma_racks_without_first(rest, rest.len() as int);
            assert(rest.take(rest.len() as int) =~= rest);
        }
        let _rack = cfg.remove_rack(id.as_str());
    }
}

/// What remains of the state after everything was torn down.
pub fn clear_state(state: &mut AppState)
    requires
        old(state).config.wf(),
    ensures
        final(state).config.wf(),
        final(state).config.racks.len() == 0,
        final(state).config.nodes.len() == 0,
        final(state).config.servers@ == servers_elsewhere(
            old(state).config.servers@,
            old(state).config.nodes@,
        ),
        final(state).config_path == old(state).config_path,
        final(state).openapi_cache.entries.len() == 0,
        untracked(old(state).pids@, final(state).pids@, old(state).config.nodes@),
        forgotten(old(state).monitor, final(state).monitor, old(state).config.nodes@),
{
    clear_registry(&mut state.config, &mut state.pids, &mut state.monitor);
    state.openapi_cache.clear();
}

// ── Laws of a reset ──────────────────────────────────────────────
/// The calls that remove groups of a store, one group after the other.
pub open spec fn groups_teardown(
    servers: Seq<ServerEntry>,
    reports: Seq<NodeStore>,
    sid: u64,
    groups: Seq<u64>,
) -> Seq<CallView>
    decreases groups.len(),
{
    if groups.len() == 0 {
        Seq::empty()
    } else {
        calls_at(
            servers,
            placements(reports, sid, groups[0]),
            RequestView::RemoveGroup { store_id: sid, group_id: groups[0] },
        ) + groups_teardown(servers, reports, sid, groups.skip(1))
    }
}

/// The calls that remove stores, one after the other, each behind its groups.
pub open spec fn stores_teardown(
    servers: Seq<ServerEntry>,
    reports: Seq<NodeStore>,
    stores: Seq<u64>,
) -> Seq<CallView>
    decreases stores.len(),
{
    if stores.len() == 0 {
        Seq::empty()
    } else {
        let sid = stores[0];
        groups_teardown(servers, reports, sid, group_ids(reports, sid)) + store_removal(
            servers,
            nodes_hosting(reports, sid),
            RequestView::RemoveStore { store_id: sid },
        ) + stores_teardown(servers, reports, stores.skip(1))
    }
}

/// As long as the nodes report the same, a teardown removes every store from all
/// nodes that host it, and before it all its groups from the nodes of their
/// replicas.
pub proof fn teardown_removes_groups_before_their_store(
    servers: Seq<ServerEntry>,
    reports: Seq<NodeStore>,
    stores: Seq<u64>,
)
    ensures
        (TeardownView { stores, groups: None }).calls_ahead(servers, reports) == stores_teardown(
            servers,
            reports,
            stores,
        ),
    decreases stores.len(),
{
    if stores.len() > 0 {
        let t = TeardownView { stores, groups: None };
        let ids = group_ids(reports, stores[0]);
        assert(t.stepped(reports) == (TeardownView { stores, groups: Some(ids) }));
        lemma_groups_first(servers, reports, stores, ids);
        assert(t.calls_ahead(servers, reports) =~= t.stepped(reports).calls_ahead(servers, reports));
    }
}

proof fn lemma_groups_first(
    servers: Seq<ServerEntry>,
    reports: Seq<NodeStore>,
    stores: Seq<u64>,
    groups: Seq<u64>,
)
    requires
        stores.len() > 0,
    ensures
        (TeardownView { stores, groups: Some(groups) }).calls_ahead(servers, reports)
            == groups_teardown(servers, reports, stores[0], groups) + store_removal(
            servers,
            nodes_hosting(reports, stores[0]),
            RequestView::RemoveStore { store_id: stores[0] },
        ) + stores_teardown(servers, reports, stores.skip(1)),
    decreases stores.len(), groups.len(),
{
    let t = TeardownView { stores, groups: Some(groups) };
    let last = store_removal(
        servers,
        nodes_hosting(reports, stores[0]),
        RequestView::RemoveStore { store_id: stores[0] },
    );
    let rest = stores_teardown(servers, reports, stores.skip(1));
    if groups.len() > 0 {
        lemma_groups_first(servers, reports, stores, groups.skip(1));
        let more = groups_teardown(servers, reports, stores[0], groups.skip(1));
        assert(t.calls(servers, reports) + (more + last + rest) =~= (t.calls(servers, reports)
            + more) + last + rest);
    } else {
        teardown_removes_groups_before_their_store(servers, reports, stores.skip(1));
        assert(Seq::<CallView>::empty() + last + rest =~= last + rest);
    }
}

/// A reset leaves exactly the servers that are on no node of the registry.
pub proof fn reset_leaves_no_server_on_a_node(
    servers: Seq<ServerEntry>,
    nodes: Seq<NodeEntry>,
    s: ServerEntry,
)
    ensures
        servers_elsewhere(servers, nodes).contains(s) <==> servers.contains(s) && !on_one_of(
            s,
            nodes,
        ),
    decreases servers.len(),
{
    if servers.len() > 0 {
        let front = servers.drop_last();
        let last = servers.last();
        reset_leaves_no_server_on_a_node(front, nodes, s);
        let rest = servers_elsewhere(front, nodes);
        if servers.contains(s) {
            let i = servers.index_of(s);
            if i < front.len() {
                assert(front[i] == s);
            }
        }
        if front.contains(s) {
            let i = front.index_of(s);
            assert(servers[i] == s);
        }
        if !on_one_of(last, nodes) {
            let all = rest.push(last);
            if all.contains(s) {
                let i = all.index_of(s);
                if i < rest.len() {
                    assert(rest[i] == s);
                } else {
                    assert(servers[servers.len() - 1] == s);
                }
            }
            if rest.contains(s) {
                let i = rest.index_of(s);
                assert(all[i] == s);
            }
            assert(all[rest.len() as int] == last);
        }
    }
}

/// A request goes to every node of the replicas that has a server, in their
/// order.
pub proof fn calls_go_to_nodes_with_servers(servers: Seq<ServerEntry>, all: Seq<Placement>, request: RequestView)
    ensures
        calls_at(servers, all, request) == all.filter(|p: Placement| url_of(servers, p.1) is Some).map_values(
            |p: Placement| call_to(servers, p.1, request),
        ),
    decreases all.len(),
{
    reveal(Seq::filter);
    if all.len() > 0 {
        calls_go_to_nodes_with_servers(servers, all.drop_last(), request);
    }
    assert(calls_at(servers, all, request) =~= all.filter(|p: Placement| url_of(servers, p.1) is Some).map_values(
        |p: Placement| call_to(servers, p.1, request),
    ));
}

/// A reset stops the tracked process of every node on this machine, in the
/// order of the nodes, and none on another machine.
pub proof fn reset_stops_the_local_processes(nodes: Seq<NodeEntry>, pids: RuntimePids)
    ensures
        local_processes(nodes, pids) == nodes.filter(|n: NodeEntry| pid_view(pids, n.id@) is Some && !n.is_remote()).map_values(
            |n: NodeEntry| (n.id@, pid_view(pids, n.id@)->0),
        ),
    decreases nodes.len(),
{
    reveal(Seq::filter);
    if nodes.len() > 0 {
        reset_stops_the_local_processes(nodes.drop_last(), pids);
    }
    assert(local_processes(nodes, pids) =~= nodes.filter(|n: NodeEntry| pid_view(pids, n.id@) is Some && !n.is_remote()).map_values(
        |n: NodeEntry| (n.id@, pid_view(pids, n.id@)->0),
    ));
}

/// The servers that a reset leaves are those on no node, in their order.
pub proof fn reset_leaves_servers_elsewhere_in_order(servers: Seq<ServerEntry>, nodes: Seq<NodeEntry>)
    ensures
        servers_elsewhere(servers, nodes) == servers.filter(|s: ServerEntry| !on_one_of(s, nodes)),
    decreases servers.len(),
{
    reveal(Seq::filter);
    if servers.len() > 0 {
        reset_leaves_servers_elsewhere_in_order(servers.drop_last(), nodes);
    }
}

/// A reset reports exactly the nodes whose process was told to stop.
pub proof fn stopped_processes_are_reported(
    processes: Seq<LocalProcess>,
    sent: Seq<bool>,
    node: Seq<char>,
)
    ensures
        nodes_stopped(processes, sent).contains(node) <==> exists|i: int|
            0 <= i < processes.len() && i < sent.len() && sent[i] && (
            #[trigger] processes[i]).node_id@ == node,
    decreases processes.len(),
{
    let all = nodes_stopped(processes, sent);
    if processes.len() > 0 {
        let front = processes.drop_last();
        let before = nodes_stopped(front, sent);
        stopped_processes_are_reported(front, sent, node);
        assert forall|i: int| 0 <= i < front.len() implies front[i] == #[trigger] processes[i] by {}
        if before.contains(node) {
            let k = choose|k: int| 0 <= k < before.len() && before[k] == node;
            assert(all[k] == node);
            let i = choose|i: int|
                0 <= i < front.len() && i < sent.len() && sent[i] && (
                #[trigger] front[i]).node_id@ == node;
            assert(processes[i].node_id@ == node);
        }
        if all.contains(node) && !before.contains(node) {
            let k = choose|k: int| 0 <= k < all.len() && all[k] == node;
            if k < before.len() {
                assert(before[k] == node);
            }
            assert(processes[processes.len() - 1].node_id@ == node);
        }
        if exists|i: int|
            0 <= i < processes.len() && i < sent.len() && sent[i] && (
            #[trigger] processes[i]).node_id@ == node {
            let i = choose|i: int|
                0 <= i < processes.len() && i < sent.len() && sent[i] && (
                #[trigger] processes[i]).node_id@ == node;
            if i < front.len() {
                assert(front[i].node_id@ == node);
            } else {
                assert(all[all.len() - 1] == node);
            }
        }
    }
}

/// A reset forgets what it knew of its nodes and keeps what it knew of others.
pub proof fn reset_forgets_only_its_nodes(
    before: Monitor,
    after: Monitor,
    tracked_before: Map<Seq<char>, u32>,
    tracked_after: Map<Seq<char>, u32>,
    nodes: Seq<NodeEntry>,
    r: NodeRecord,
    s: NodeStore,
    n: Seq<char>,
)
    requires
        forgotten(before, after, nodes),
        untracked(tracked_before, tracked_after, nodes),
    ensures
        has_node(nodes, r.node_id@) ==> !after.records@.contains(r),
        !has_node(nodes, r.node_id@) && before.records@.contains(r) ==> after.records@.contains(r),
        has_node(nodes, s.node_id@) ==> !after.stores@.contains(s),
        !has_node(nodes, s.node_id@) && before.stores@.contains(s) ==> after.stores@.contains(s),
        has_node(nodes, n) ==> !tracked_after.contains_key(n),
        !has_node(nodes, n) && tracked_before.contains_key(n) ==> tracked_after.contains_key(n)
            && tracked_after[n] == tracked_before[n],
{
    assert(tracked_after.dom().contains(n) == (tracked_before.dom().contains(n) && !has_node(
        nodes,
        n,
    )));
}

} // verus!
