//! Racks, nodes and the servers that are deployed on them.

use crate::common::api::ApiError;
use crate::common::scan::{
    decimal_reads_back, number, parse_number, pieces, separator_parts_the_pieces, split,
    text_without_separator_is_one_piece, written_number_has_only_digits,
};
use crate::common::text::{concat2, dec, same_text, texts};
use crate::console::config::{
    about, copy_text, has_node, has_rack, hosts_server, nodes_in, refuse, server_at,
    servers_without, ConsoleConfig, NodeEntry, RackEntry, ServerEntry,
};
use crate::console::reports::{find_record, health_of, NodeHealth, NodeRecord};
use crate::console::state::{pid_view, records_without, stores_without, Monitor, RuntimePids};
use vstd::prelude::*;
use vstd::string::*;

verus! {

#[derive(Debug)]
pub struct AddRackBody {
    pub id: String,
    pub name: String,
}

#[derive(Debug)]
pub struct NodeQuery {
    /// Only nodes in this rack.
    pub rack_id: Option<String>,
}

#[derive(Debug)]
pub struct PingResult {
    pub ok: bool,
    pub error: Option<String>,
}

#[derive(Debug)]
pub struct DeployNodeServerBody {
    pub mgmt_port: u16,
    pub grpc_port: u16,
    pub binary: Option<String>,
}

#[derive(Debug)]
pub struct DeployResult {
    pub node_id: String,
    pub mgmt_url: String,
    pub grpc_url: String,
    pub pid: u32,
}

#[derive(Debug)]
pub struct StopResult {
    pub sent: bool,
}

#[derive(Debug)]
pub struct ResetResult {
    pub stopped: Vec<String>,
}

/// A server that was just started.
#[derive(Debug)]
pub struct Deployed {
    pub mgmt_url: String,
    pub grpc_url: String,
    pub pid: u32,
}

/// What a server's process does.
#[derive(Clone, Copy, Debug, PartialEq, Eq, Structural)]
pub enum ProcState {
    Running,
    Failed,
    Unknown,
}

/// A server's process as far as is known.
#[derive(Debug)]
pub struct ServerProcess {
    pub mgmt_url: String,
    pub grpc_url: String,
    pub pid: Option<u32>,
    pub state: ProcState,
    pub health: NodeHealth,
    pub last_seen_ms: u64,
}

/// One row of the list of servers.
#[derive(Debug)]
pub struct ServerSummary {
    pub node_id: Option<String>,
    pub mgmt_url: String,
    pub grpc_url: Option<String>,
    pub pid: Option<u32>,
    pub health: NodeHealth,
}

#[derive(Debug)]
pub struct RackDetail {
    pub id: String,
    pub name: String,
    pub nodes: Vec<String>,
}

#[derive(Debug)]
pub struct NodeDetail {
    pub id: String,
    pub rack_id: String,
    pub host: String,
    pub ssh_user: String,
    pub ssh_port: u16,
    pub has_server: bool,
    pub server: Option<ServerProcess>,
}

// ── Server processes ─────────────────────────────────────────────
/// What a node's health says of the process on it.
pub open spec fn proc_state(health: NodeHealth) -> ProcState {
    match health {
        NodeHealth::Up => ProcState::Running,
        NodeHealth::Down => ProcState::Failed,
        NodeHealth::Unknown => ProcState::Unknown,
    }
}

/// `p` is the process of the server, on a node of which `rec` is known.
pub open spec fn process_of(
    entry: ServerEntry,
    rec: Option<NodeRecord>,
    pid: Option<u32>,
    p: ServerProcess,
) -> bool {
    let health = match rec {
        Some(r) => r.health,
        None => NodeHealth::Unknown,
    };
    &&& p.mgmt_url == entry.url
    &&& p.grpc_url@ == match entry.grpc_url {
        Some(u) => u@,
        None => Seq::empty(),
    }
    &&& p.pid == pid
    &&& p.health == health
    &&& p.state == proc_state(health)
    &&& p.last_seen_ms == match rec {
        Some(r) => r.last_seen_ms,
        None => 0,
    }
}

/// The process of a server by the record of its node. Its pid is not known here.
pub fn live_server_process(entry: &ServerEntry, rec: Option<&NodeRecord>) -> (p: ServerProcess)
    ensures
        process_of(
            *entry,
            match rec {
                Some(r) => Some(*r),
                None => None,
            },
            None,
            p,
        ),
{
    let health: NodeHealth = match rec {
        Some(r) => r.health,
        None => NodeHealth::Unknown,
    };
    let state: ProcState = match health {
        NodeHealth::Up => ProcState::Running,
        NodeHealth::Down => ProcState::Failed,
        NodeHealth::Unknown => ProcState::Unknown,
    };
    let last_seen_ms: u64 = match rec {
        Some(r) => r.last_seen_ms,
        None => 0,
    };
    let grpc_url: String = match &entry.grpc_url {
        Some(u) => u.clone(),
        None => String::new(),
    };
    ServerProcess { mgmt_url: entry.url.clone(), grpc_url, pid: None, state, health, last_seen_ms }
}

/// The pid that is tracked for a server's node.
pub open spec fn tracked_pid(node_id: Option<String>, pids: RuntimePids) -> Option<u32> {
    match node_id {
        Some(n) => pid_view(pids, n@),
        None => None,
    }
}

fn pid_on(node_id: &Option<String>, pids: &RuntimePids) -> (p: Option<u32>)
    ensures
        p == tracked_pid(*node_id, *pids),
{
    match node_id {
        Some(n) => pids.get(n.as_str()),
        None => None,
    }
}

/// The process of a server with the pid that is tracked for its node.
pub fn live_server_process_with_pid(
    entry: &ServerEntry,
    rec: Option<&NodeRecord>,
    pids: &RuntimePids,
) -> (p: ServerProcess)
    ensures
        process_of(
            *entry,
            match rec {
                Some(r) => Some(*r),
                None => None,
            },
            tracked_pid(entry.node_id, *pids),
            p,
        ),
{
    let mut p: ServerProcess = live_server_process(entry, rec);
    p.pid = pid_on(&entry.node_id, pids);
    p
}

/// `row` is the row of a server in the list.
pub open spec fn row_of(
    entry: ServerEntry,
    records: Seq<NodeRecord>,
    pids: RuntimePids,
    row: ServerSummary,
) -> bool {
    &&& row.node_id == entry.node_id
    &&& row.mgmt_url == entry.url
    &&& row.grpc_url == entry.grpc_url
    &&& row.pid == tracked_pid(entry.node_id, pids)
    &&& row.health == match entry.node_id {
        Some(n) => health_of(records, n@),
        None => NodeHealth::Unknown,
    }
}

/// All servers, one row for each.
pub fn list_servers(cfg: &ConsoleConfig, records: &Vec<NodeRecord>, pids: &RuntimePids) -> (rows:
    Vec<ServerSummary>)
    ensures
        rows.len() == cfg.servers.len(),
        forall|i: int|
            0 <= i < rows.len() ==> row_of(cfg.servers@[i], records@, *pids, #[trigger] rows@[i]),
{
    let mut rows: Vec<ServerSummary> = Vec::new();
    let mut i: usize = 0;
    while i < cfg.servers.len()
        invariant
            i <= cfg.servers.len(),
            rows.len() == i,
            forall|k: int|
                0 <= k < i ==> row_of(cfg.servers@[k], records@, *pids, #[trigger] rows@[k]),
        decreases cfg.servers.len() - i,
    {
        let s: &ServerEntry = &cfg.servers[i];
        let health: NodeHealth = match &s.node_id {
            Some(n) => match find_record(records, n.as_str()) {
                Some(rec) => rec.health,
                None => NodeHealth::Unknown,
            },
            None => NodeHealth::Unknown,
        };
        rows.push(
            ServerSummary {
                node_id: copy_text(&s.node_id),
                mgmt_url: s.url.clone(),
                grpc_url: copy_text(&s.grpc_url),
                pid: pid_on(&s.node_id, pids),
                health,
            },
        );
        i = i + 1;
    }
    rows
}

// ── Racks and nodes ──────────────────────────────────────────────
/// Add the rack that a request describes.
pub fn add_rack(cfg: &mut ConsoleConfig, body: AddRackBody) -> (r: Result<RackEntry, ApiError>)
    requires
        old(cfg).wf(),
    ensures
        final(cfg).wf(),
        match r {
            Ok(rack) => {
                &&& !has_rack(old(cfg).racks@, body.id@)
                &&& rack == (RackEntry { id: body.id, name: body.name })
                &&& final(cfg).racks@ == old(cfg).racks@.push(rack)
                &&& *final(cfg) == (ConsoleConfig { racks: final(cfg).racks, ..*old(cfg) })
            },
            Err(e) => {
                &&& has_rack(old(cfg).racks@, body.id@)
                &&& e.says(409, about("rack "@, body.id@, " already exists"@))
                &&& *final(cfg) == *old(cfg)
            },
        },
{
    let entry = RackEntry { id: body.id, name: body.name };
    match cfg.add_rack(entry.clone()) {
        Ok(_) => Ok(entry),
        Err(e) => Err(e),
    }
}

fn node_ids(nodes: &Vec<NodeEntry>) -> (ids: Vec<String>)
    ensures
        ids.len() == nodes.len(),
        forall|i: int| 0 <= i < ids.len() ==> #[trigger] ids@[i] == nodes@[i].id,
{
    let mut ids: Vec<String> = Vec::new();
    let mut i: usize = 0;
    while i < nodes.len()
        invariant
            i <= nodes.len(),
            ids.len() == i,
            forall|k: int| 0 <= k < i ==> #[trigger] ids@[k] == nodes@[k].id,
        decreases nodes.len() - i,
    {
        ids.push(nodes[i].id.clone());
        i = i + 1;
    }
    ids
}

/// A rack with the ids of its nodes.
pub fn get_rack(cfg: &ConsoleConfig, id: &str) -> (r: Result<RackDetail, ApiError>)
    ensures
        match r {
            Ok(d) => {
                &&& exists|i: int|
                    0 <= i < cfg.racks.len() && (#[trigger] cfg.racks@[i]).id == d.id
                        && cfg.racks@[i].name == d.name
                &&& d.id@ == id@
                &&& texts(d.nodes@) == nodes_in(cfg.nodes@, id@).map_values(|n: NodeEntry| n.id@)
            },
            Err(e) => !has_rack(cfg.racks@, id@) && e.says(
                404,
                about("rack "@, id@, " not found"@),
            ),
        },
{
    match cfg.rack(id) {
        Some(rack) => {
            let nodes: Vec<NodeEntry> = cfg.list_nodes(Some(id));
            let ids: Vec<String> = node_ids(&nodes);
            proof {
                assert(texts(ids@) =~= nodes@.map_values(|n: NodeEntry| n.id@));
            }
            Ok(RackDetail { id: rack.id.clone(), name: rack.name.clone(), nodes: ids })
        },
        None => Err(refuse(404, "rack ", id, " not found")),
    }
}

/// The nodes of a rack.
pub fn list_rack_nodes(cfg: &ConsoleConfig, rack_id: &str) -> (r: Result<Vec<NodeEntry>, ApiError>)
    ensures
        match r {
            Ok(nodes) => has_rack(cfg.racks@, rack_id@) && nodes@ == nodes_in(
                cfg.nodes@,
                rack_id@,
            ),
            Err(e) => !has_rack(cfg.racks@, rack_id@) && e.says(
                404,
                about("rack "@, rack_id@, " not found"@),
            ),
        },
{
    match cfg.rack(rack_id) {
        Some(_) => Ok(cfg.list_nodes(Some(rack_id))),
        None => Err(refuse(404, "rack ", rack_id, " not found")),
    }
}

/// The nodes that a query asks for.
pub fn list_nodes(cfg: &ConsoleConfig, q: &NodeQuery) -> (nodes: Vec<NodeEntry>)
    ensures
        nodes@ == match q.rack_id {
            Some(id) => nodes_in(cfg.nodes@, id@),
            None => cfg.nodes@,
        },
{
    match &q.rack_id {
        Some(id) => cfg.list_nodes(Some(id.as_str())),
        None => cfg.list_nodes(None),
    }
}

/// Add a node to a rack, whichever rack its entry names.
pub fn add_rack_node(cfg: &mut ConsoleConfig, rack_id: &str, entry: NodeEntry) -> (r: Result<
    NodeEntry,
    ApiError,
>)
    requires
        old(cfg).wf(),
    ensures
        final(cfg).wf(),
        match r {
            Ok(n) => {
                &&& !has_node(old(cfg).nodes@, entry.id@)
                &&& has_rack(old(cfg).racks@, rack_id@)
                &&& n.rack_id@ == rack_id@
                &&& n == (NodeEntry { rack_id: n.rack_id, ..entry })
                &&& final(cfg).nodes@ == old(cfg).nodes@.push(n)
                &&& *final(cfg) == (ConsoleConfig { nodes: final(cfg).nodes, ..*old(cfg) })
            },
            Err(e) => {
                &&& *final(cfg) == *old(cfg)
                &&& if has_node(old(cfg).nodes@, entry.id@) {
                    e.says(409, about("node "@, entry.id@, " already exists"@))
                } else {
                    !has_rack(old(cfg).racks@, rack_id@) && e.says(
                        400,
                        about("rack "@, rack_id@, " does not exist"@),
                    )
                }
            },
        },
{
    let placed = NodeEntry { rack_id: rack_id.to_owned(), ..entry };
    match cfg.add_node(placed.clone()) {
        Ok(_) => Ok(placed),
        Err(e) => Err(e),
    }
}

/// What a ping of a node comes to.
#[derive(Debug)]
pub enum PingStep {
    Answer(PingResult),
    /// The node is to be reached over the network.
    Probe(NodeEntry),
}

/// The first step of a ping: a node that is this machine answers at once.
pub fn begin_ping(cfg: &ConsoleConfig, id: &str) -> (r: Result<PingStep, ApiError>)
    ensures
        match r {
            Ok(PingStep::Answer(p)) => p.ok && p.error is None && exists|i: int|
                0 <= i < cfg.nodes.len() && (#[trigger] cfg.nodes@[i]).id@ == id@
                    && !cfg.nodes@[i].is_remote(),
            Ok(PingStep::Probe(n)) => cfg.nodes@.contains(n) && n.id@ == id@ && n.is_remote(),
            Err(e) => !has_node(cfg.nodes@, id@) && e.says(
                404,
                about("node "@, id@, " not found"@),
            ),
        },
{
    match cfg.node(id) {
        Some(n) => if n.ssh_enabled() {
            Ok(PingStep::Probe(n.clone()))
        } else {
            Ok(PingStep::Answer(PingResult { ok: true, error: None }))
        },
        None => Err(refuse(404, "node ", id, " not found")),
    }
}

/// What a probe of a node comes to.
pub fn ping_result(probe: Result<(), String>) -> (p: PingResult)
    ensures
        p.ok == probe.is_ok(),
        p.error == match probe {
            Ok(_) => None,
            Err(e) => Some(e),
        },
{
    match probe {
        Ok(_) => PingResult { ok: true, error: None },
        Err(e) => PingResult { ok: false, error: Some(e) },
    }
}

/// A node with the process of its server.
pub fn get_node(
    cfg: &ConsoleConfig,
    records: &Vec<NodeRecord>,
    pids: &RuntimePids,
    id: &str,
) -> (r: Result<NodeDetail, ApiError>)
    ensures
        match r {
            Ok(d) => {
                &&& exists|i: int|
                    {
                        &&& 0 <= i < cfg.nodes.len()
                        &&& (#[trigger] cfg.nodes@[i]).id == d.id
                        &&& d.rack_id == cfg.nodes@[i].rack_id
                        &&& d.host == cfg.nodes@[i].host
                        &&& d.ssh_user == cfg.nodes@[i].ssh_user
                        &&& d.ssh_port == cfg.nodes@[i].ssh_port
                    }
                &&& d.id@ == id@
                &&& d.has_server == hosts_server(cfg.servers@, id@)
                &&& match d.server {
                    Some(p) => exists|i: int, rec: Option<NodeRecord>|
                        {
                            &&& #[trigger] server_at(cfg.servers@, id@, i)
                            &&& #[trigger] record_of(records@, id@, rec)
                            &&& process_of(
                                cfg.servers@[i],
                                rec,
                                tracked_pid(cfg.servers@[i].node_id, *pids),
                                p,
                            )
                        },
                    None => !d.has_server,
                }
            },
            Err(e) => !has_node(cfg.nodes@, id@) && e.says(
                404,
                about("node "@, id@, " not found"@),
            ),
        },
{
    let node: &NodeEntry = match cfg.node(id) {
        Some(n) => n,
        None => {
            return Err(refuse(404, "node ", id, " not found"));
        },
    };
    let server: Option<ServerProcess> = match cfg.server_for_node(id) {
        Some(entry) => {
            let rec: Option<&NodeRecord> = find_record(records, id);
            let p = live_server_process_with_pid(entry, rec, pids);
            proof {
                let i = choose|i: int| #[trigger]
                    server_at(cfg.servers@, id@, i) && *entry == cfg.servers@[i];
                let known: Option<NodeRecord> = match rec {
                    Some(r) => Some(*r),
                    None => None,
                };
                assert(server_at(cfg.servers@, id@, i));
                assert(record_of(records@, id@, known));
                assert(cfg.servers@[i].is_on(id@));
            }
            Some(p)
        },
        None => None,
    };
    Ok(
        NodeDetail {
            id: node.id.clone(),
            rack_id: node.rack_id.clone(),
            host: node.host.clone(),
            ssh_user: node.ssh_user.clone(),
            ssh_port: node.ssh_port,
            has_server: server.is_some(),
            server,
        },
    )
}

/// `rec` is a record of the node, and there is none if it is `None`.
pub open spec fn record_of(records: Seq<NodeRecord>, node: Seq<char>, rec: Option<NodeRecord>) -> bool {
    match rec {
        Some(r) => records.contains(r) && r.node_id@ == node && r.health == health_of(
            records,
            node,
        ),
        None => forall|k: int| 0 <= k < records.len() ==> (#[trigger] records[k]).node_id@ != node,
    }
}

// ── Servers on nodes ─────────────────────────────────────────────
/// Error of a request for a server that is not there.
pub open spec fn not_deployed(node_id: Seq<char>) -> Seq<char> {
    about("no server deployed on node "@, node_id, ""@)
}

/// The server on a node with the pid that is tracked for it.
pub fn get_node_server(cfg: &ConsoleConfig, pids: &RuntimePids, node_id: &str) -> (r: Result<
    ServerEntry,
    ApiError,
>)
    ensures
        match r {
            Ok(s) => exists|i: int| #[trigger]
                server_at(cfg.servers@, node_id@, i) && s == (ServerEntry {
                    pid: pid_view(*pids, node_id@),
                    ..cfg.servers@[i]
                }),
            Err(e) => !hosts_server(cfg.servers@, node_id@) && e.says(404, not_deployed(node_id@)),
        },
{
    match cfg.server_for_node(node_id) {
        Some(s) => {
            let mut entry: ServerEntry = s.clone();
            entry.pid = pids.get(node_id);
            Ok(entry)
        },
        None => Err(refuse(404, "no server deployed on node ", node_id, "")),
    }
}

/// The node that a server is to be deployed on, which must not have one.
pub fn deploy_target(cfg: &ConsoleConfig, node_id: &str) -> (r: Result<NodeEntry, ApiError>)
    ensures
        match r {
            Ok(n) => {
                &&& !hosts_server(cfg.servers@, node_id@)
                &&& cfg.nodes@.contains(n)
                &&& n.id@ == node_id@
            },
            Err(e) => if hosts_server(cfg.servers@, node_id@) {
                e.says(409, about("node "@, node_id@, " already hosts a deployed server"@))
            } else {
                !has_node(cfg.nodes@, node_id@) && e.says(
                    404,
                    about("node "@, node_id@, " not found"@),
                )
            },
        },
{
    if let Some(s) = cfg.server_for_node(node_id) {
        proof {
            let i = choose|i: int| #[trigger]
                server_at(cfg.servers@, node_id@, i) && *s == cfg.servers@[i];
            assert(cfg.servers@[i].is_on(node_id@));
        }
        return Err(refuse(409, "node ", node_id, " already hosts a deployed server"));
    }
    match cfg.node(node_id) {
        Some(n) => Ok(n.clone()),
        None => Err(refuse(404, "node ", node_id, " not found")),
    }
}

/// The error of a deployment that failed.
pub fn deploy_failed(remote: bool, restart: bool, reason: &str) -> (e: ApiError)
    ensures
        e.says(
            502,
            match (remote, restart) {
                (true, false) => "ssh deploy: "@,
                (false, false) => "local deploy: "@,
                (true, true) => "ssh redeploy (restart): "@,
                (false, true) => "local redeploy (restart): "@,
            } + reason@,
        ),
{
    let front: &str = if restart {
        if remote {
            "ssh redeploy (restart): "
        } else {
            "local redeploy (restart): "
        }
    } else if remote {
        "ssh deploy: "
    } else {
        "local deploy: "
    };
    ApiError { status: 502, error: concat2(front, reason) }
}

/// The entry of a server that was deployed on a node.
pub open spec fn is_entry_of(
    e: ServerEntry,
    node_id: Seq<char>,
    d: Deployed,
    mgmt_port: Option<u16>,
    grpc_port: Option<u16>,
    auto_start: bool,
    binary: Option<String>,
    election_profile: Option<String>,
) -> bool {
    &&& e.id@ == node_id
    &&& e.is_on(node_id)
    &&& e.url == d.mgmt_url
    &&& e.grpc_url == Some(d.grpc_url)
    &&& e.mgmt_port == mgmt_port
    &&& e.grpc_port == grpc_port
    &&& e.auto_start == auto_start
    &&& e.binary == binary
    &&& e.election_profile == election_profile
    &&& e.pid is None
}

/// `r` is the answer to a deployment on a node.
pub open spec fn is_answer_for(r: DeployResult, node_id: Seq<char>, d: Deployed) -> bool {
    &&& r.node_id@ == node_id
    &&& r.mgmt_url == d.mgmt_url
    &&& r.grpc_url == d.grpc_url
    &&& r.pid == d.pid
}

/// Record a server that was deployed on a node.
pub fn record_deployment(
    cfg: &mut ConsoleConfig,
    pids: &mut RuntimePids,
    node_id: &str,
    body: &DeployNodeServerBody,
    election_profile: Option<String>,
    deployed: Deployed,
) -> (r: Result<DeployResult, ApiError>)
    requires
        old(cfg).wf(),
    ensures
        final(cfg).wf(),
        final(pids)@ == old(pids)@.insert(node_id@, deployed.pid),
        match r {
            Ok(d) => {
                &&& is_answer_for(d, node_id@, deployed)
                &&& final(cfg).servers@.len() == old(cfg).servers@.len() + 1
                &&& final(cfg).servers@.drop_last() == old(cfg).servers@
                &&& is_entry_of(
                    final(cfg).servers@.last(),
                    node_id@,
                    deployed,
                    Some(body.mgmt_port),
                    Some(body.grpc_port),
                    true,
                    body.binary,
                    election_profile,
                )
                &&& *final(cfg) == (ConsoleConfig { servers: final(cfg).servers, ..*old(cfg) })
            },
            Err(e) => *final(cfg) == *old(cfg) && entry_refused(old(cfg).servers@, node_id@, e),
        },
{
    pids.set(node_id, deployed.pid);
    let entry = ServerEntry {
        id: node_id.to_owned(),
        url: deployed.mgmt_url.clone(),
        node_id: Some(node_id.to_owned()),
        grpc_url: Some(deployed.grpc_url.clone()),
        mgmt_port: Some(body.mgmt_port),
        grpc_port: Some(body.grpc_port),
        auto_start: true,
        binary: copy_text(&body.binary),
        election_profile,
        pid: None,
    };
    match cfg.add_server(entry) {
        Ok(_) => {
            proof {
                assert(cfg.servers@.drop_last() =~= old(cfg).servers@);
            }
            Ok(
                DeployResult {
                    node_id: node_id.to_owned(),
                    mgmt_url: deployed.mgmt_url,
                    grpc_url: deployed.grpc_url,
                    pid: deployed.pid,
                },
            )
        },
        Err(e) => Err(e),
    }
}

/// `e` refuses a server that has the id of a node and is on it.
pub open spec fn entry_refused(servers: Seq<ServerEntry>, node_id: Seq<char>, e: ApiError) -> bool {
    if crate::console::config::has_server(servers, node_id) {
        e.says(409, about("server "@, node_id, " already exists"@))
    } else {
        hosts_server(servers, node_id) && e.says(
            409,
            about("node "@, node_id, " already hosts a deployed server"@),
        )
    }
}

/// `url` without `http://` or `https://` at its front.
pub open spec fn without_scheme(url: Seq<char>) -> Seq<char> {
    if "http://"@.is_prefix_of(url) {
        url.skip("http://"@.len() as int)
    } else if "https://"@.is_prefix_of(url) {
        url.skip("https://"@.len() as int)
    } else {
        url
    }
}

/// The port in a URL: the number behind the last colon before the path.
pub open spec fn port_in(url: Seq<char>) -> Option<nat> {
    let host_port = pieces(without_scheme(url), '/')[0];
    number(pieces(host_port, ':').last(), u16::MAX as nat)
}

/// What stands behind a prefix, if the text begins with it.
fn strip<'a>(s: &'a str, prefix: &str) -> (r: Option<&'a str>)
    ensures
        match r {
            Some(t) => prefix@.is_prefix_of(s@) && t@ == s@.skip(prefix@.len() as int),
            None => !prefix@.is_prefix_of(s@),
        },
{
    let n: usize = s.unicode_len();
    let k: usize = prefix.unicode_len();
    if k > n {
        return None;
    }
    let front: &str = s.substring_char(0, k);
    if same_text(front, prefix) {
        proof {
            assert(s@.subrange(0, k as int) =~= prefix@);
            assert(s@.subrange(k as int, n as int) =~= s@.skip(k as int));
        }
        Some(s.substring_char(k, n))
    } else {
        None
    }
}

proof fn lemma_some_piece(s: Seq<char>, sep: char)
    ensures
        pieces(s, sep).len() > 0,
    decreases s.len(),
{
    if s.len() > 0 {
        lemma_some_piece(s.drop_last(), sep);
    }
}

/// The port in a URL.
pub fn port_of(url: &str) -> (p: Option<u16>)
    ensures
        match (p, port_in(url@)) {
            (Some(v), Some(n)) => v == n,
            (None, None) => true,
            _ => false,
        },
{
    let stripped: &str = match strip(url, "http://") {
        Some(t) => t,
        None => match strip(url, "https://") {
            Some(t) => t,
            None => url,
        },
    };
    let parts: Vec<&str> = split(stripped, '/');
    proof {
        lemma_some_piece(stripped@, '/');
        assert(parts@.map_values(|p: &str| p@).len() == parts.len());
        assert(parts@.map_values(|p: &str| p@)[0] == parts@[0]@);
    }
    let host: Vec<&str> = split(parts[0], ':');
    proof {
        lemma_some_piece(parts@[0]@, ':');
        assert(host@.map_values(|p: &str| p@).len() == host.len());
        assert(host@.map_values(|p: &str| p@).last() == host@.last()@);
    }
    match parse_number(host[host.len() - 1], u16::MAX as u64) {
        Some(n) => Some(n as u16),
        None => None,
    }
}

/// What the debug form of an optional text shows.
pub uninterp spec fn debug_shown(t: Option<Seq<char>>) -> Seq<char>;

/// A text that its debug form shows as it is, between double quotes.
pub open spec fn shown_plainly(s: Seq<char>) -> bool {
    forall|i: int| 0 <= i < s.len() ==> 0x20 <= #[trigger] s[i] as u32 <= 0x7E && s[i] != '"'
        && s[i] != '\\'
}

/// The debug form of an `Option<String>`, as `format!` writes it: `None`, or
/// `Some` with the text between double quotes. Printable ASCII characters other
/// than the double quote and the backslash are shown as they are; how others
/// are escaped is not stated.
#[verifier::external_body]
fn debug_text(t: &Option<String>) -> (s: String)
    ensures
        s@ == debug_shown(
            match *t {
                Some(x) => Some(x@),
                None => None,
            },
        ),
        t is None ==> s@ == "None"@,
        t matches Some(x) ==> (shown_plainly(x@) ==> s@ == "Some(\""@ + x@ + "\")"@),
{
    format!("{:?}", t)
}

/// What a restart needs: the process to stop first, the entry and the node of the
/// server, and its ports.
#[derive(Debug)]
pub struct RestartPlan {
    /// The process that runs, if one is tracked.
    pub stop: Option<StopTarget>,
    pub entry: ServerEntry,
    pub node: NodeEntry,
    pub mgmt_port: u16,
    pub grpc_port: u16,
}

/// The port in an optional URL.
pub open spec fn port_in_optional(url: Option<String>) -> Option<nat> {
    match url {
        Some(u) => port_in(u@),
        None => None,
    }
}

/// What a restart of the server on a node needs.
pub fn restart_plan(cfg: &ConsoleConfig, pids: &RuntimePids, node_id: &str) -> (r: Result<
    RestartPlan,
    ApiError,
>)
    ensures
        match r {
            Ok(p) => {
                &&& match (p.stop, pid_view(*pids, node_id@)) {
                    (Some(t), Some(pid)) => stops(*cfg, node_id@, pid, t),
                    (None, None) => true,
                    _ => false,
                }
                &&& exists|i: int| #[trigger]
                    server_at(cfg.servers@, node_id@, i) && p.entry == cfg.servers@[i]
                &&& cfg.nodes@.contains(p.node)
                &&& p.node.id@ == node_id@
                &&& port_in(p.entry.url@) == Some(p.mgmt_port as nat)
                &&& port_in_optional(p.entry.grpc_url) == Some(p.grpc_port as nat)
            },
            Err(e) => if !hosts_server(cfg.servers@, node_id@) {
                e.says(404, about("no server registered on node "@, node_id@, ""@))
            } else if !has_node(cfg.nodes@, node_id@) {
                e.says(404, about("node "@, node_id@, " not found"@))
            } else {
                exists|i: int| #[trigger]
                    server_at(cfg.servers@, node_id@, i) && restart_refused(cfg.servers@[i], e)
            },
        },
{
    let entry: &ServerEntry = match cfg.server_for_node(node_id) {
        Some(s) => s,
        None => {
            return Err(refuse(404, "no server registered on node ", node_id, ""));
        },
    };
    let ghost i = choose|i: int| #[trigger]
        server_at(cfg.servers@, node_id@, i) && *entry == cfg.servers@[i];
    proof {
        assert(cfg.servers@[i].is_on(node_id@));
    }
    let node: &NodeEntry = match cfg.node(node_id) {
        Some(n) => n,
        None => {
            return Err(refuse(404, "node ", node_id, " not found"));
        },
    };
    proof {
        let k = choose|k: int|
            0 <= k < cfg.nodes.len() && (#[trigger] cfg.nodes@[k]).id@ == node_id@ && *node
                == cfg.nodes@[k];
        assert(has_node(cfg.nodes@, node_id@));
    }
    let mgmt_port: u16 = match port_of(entry.url.as_str()) {
        Some(p) => p,
        None => {
            let e = ApiError {
                status: 500,
                error: concat2("server entry has malformed mgmt_url: ", entry.url.as_str()),
            };
            proof {
                assert(restart_refused(cfg.servers@[i], e));
            }
            return Err(e);
        },
    };
    let grpc: Option<u16> = match &entry.grpc_url {
        Some(u) => port_of(u.as_str()),
        None => None,
    };
    let grpc_port: u16 = match grpc {
        Some(p) => p,
        None => {
            let shown: String = debug_text(&entry.grpc_url);
            let e = ApiError {
                status: 500,
                error: concat2("server entry has malformed grpc_url: ", shown.as_str()),
            };
            proof {
                assert(restart_refused(cfg.servers@[i], e));
            }
            return Err(e);
        },
    };
    let stop: Option<StopTarget> = match pids.get(node_id) {
        Some(pid) => Some(stop_target(cfg, node_id, pid)),
        None => None,
    };
    Ok(RestartPlan { stop, entry: entry.clone(), node: node.clone(), mgmt_port, grpc_port })
}

/// `e` refuses to restart a server whose URLs name no port.
pub open spec fn restart_refused(s: ServerEntry, e: ApiError) -> bool {
    if port_in(s.url@) is None {
        e.says(500, "server entry has malformed mgmt_url: "@ + s.url@)
    } else {
        port_in_optional(s.grpc_url) is None && e.says(
            500,
            "server entry has malformed grpc_url: "@ + debug_shown(
                match s.grpc_url {
                    Some(u) => Some(u@),
                    None => None,
                },
            ),
        )
    }
}

/// Record a server that was restarted: its new entry takes the place of its old
/// one and keeps all that the deployment did not decide.
pub fn record_restart(
    cfg: &mut ConsoleConfig,
    pids: &mut RuntimePids,
    node_id: &str,
    entry: ServerEntry,
    deployed: Deployed,
) -> (r: Result<DeployResult, ApiError>)
    requires
        old(cfg).wf(),
    ensures
        final(cfg).wf(),
        final(pids)@ == old(pids)@.insert(node_id@, deployed.pid),
        match r {
            Ok(d) => {
                &&& is_answer_for(d, node_id@, deployed)
                &&& final(cfg).servers@.len() > 0
                &&& final(cfg).servers@.drop_last() == servers_without(old(cfg).servers@, node_id@)
                &&& is_entry_of(
                    final(cfg).servers@.last(),
                    node_id@,
                    deployed,
                    entry.mgmt_port,
                    entry.grpc_port,
                    entry.auto_start,
                    entry.binary,
                    entry.election_profile,
                )
            },
            Err(e) => {
                &&& final(cfg).servers@ == servers_without(old(cfg).servers@, node_id@)
                &&& entry_refused(final(cfg).servers@, node_id@, e)
            },
        },
        *final(cfg) == (ConsoleConfig { servers: final(cfg).servers, ..*old(cfg) }),
{
    pids.set(node_id, deployed.pid);
    let renewed = ServerEntry {
        id: node_id.to_owned(),
        url: deployed.mgmt_url.clone(),
        node_id: Some(node_id.to_owned()),
        grpc_url: Some(deployed.grpc_url.clone()),
        mgmt_port: entry.mgmt_port,
        grpc_port: entry.grpc_port,
        auto_start: entry.auto_start,
        binary: entry.binary,
        election_profile: entry.election_profile,
        pid: None,
    };
    let _removed: bool = cfg.remove_server_for_node(node_id);
    let ghost rest = cfg.servers@;
    match cfg.add_server(renewed) {
        Ok(_) => {
            proof {
                assert(cfg.servers@.drop_last() =~= rest);
            }
            Ok(
                DeployResult {
                    node_id: node_id.to_owned(),
                    mgmt_url: deployed.mgmt_url,
                    grpc_url: deployed.grpc_url,
                    pid: deployed.pid,
                },
            )
        },
        Err(e) => Err(e),
    }
}

/// A process that is to be stopped.
#[derive(Debug)]
pub struct StopTarget {
    pub pid: u32,
    /// The node that the process is on, if that is another machine.
    pub remote: Option<NodeEntry>,
}

/// `t` is the process `pid` on a node.
pub open spec fn stops(cfg: ConsoleConfig, node_id: Seq<char>, pid: u32, t: StopTarget) -> bool {
    &&& t.pid == pid
    &&& match t.remote {
        Some(n) => cfg.nodes@.contains(n) && n.id@ == node_id && n.is_remote(),
        None => !has_node(cfg.nodes@, node_id) || exists|i: int|
            0 <= i < cfg.nodes.len() && (#[trigger] cfg.nodes@[i]).id@ == node_id
                && !cfg.nodes@[i].is_remote(),
    }
}

fn stop_target(cfg: &ConsoleConfig, node_id: &str, pid: u32) -> (t: StopTarget)
    ensures
        stops(*cfg, node_id@, pid, t),
{
    match cfg.node(node_id) {
        Some(n) => if n.ssh_enabled() {
            StopTarget { pid, remote: Some(n.clone()) }
        } else {
            StopTarget { pid, remote: None }
        },
        None => StopTarget { pid, remote: None },
    }
}

/// The process to stop for the server on a node, whose entry is kept.
pub fn begin_stop(cfg: &ConsoleConfig, pids: &RuntimePids, node_id: &str) -> (r: Result<
    StopTarget,
    ApiError,
>)
    ensures
        match r {
            Ok(t) => {
                &&& hosts_server(cfg.servers@, node_id@)
                &&& pid_view(*pids, node_id@) matches Some(pid) && stops(*cfg, node_id@, pid, t)
            },
            Err(e) => if !hosts_server(cfg.servers@, node_id@) {
                e.says(404, not_deployed(node_id@))
            } else {
                pid_view(*pids, node_id@) is None && e.says(
                    400,
                    about("server on node "@, node_id@, " has no tracked pid"@),
                )
            },
        },
{
    match cfg.server_for_node(node_id) {
        Some(s) => {
            proof {
                let i = choose|i: int| #[trigger]
                    server_at(cfg.servers@, node_id@, i) && *s == cfg.servers@[i];
                assert(cfg.servers@[i].is_on(node_id@));
            }
        },
        None => {
            return Err(refuse(404, "no server deployed on node ", node_id, ""));
        },
    }
    match pids.get(node_id) {
        Some(pid) => Ok(stop_target(cfg, node_id, pid)),
        None => Err(refuse(400, "server on node ", node_id, " has no tracked pid")),
    }
}

/// Why a process was not stopped.
#[derive(Debug)]
pub enum StopFailure {
    /// Another machine refused, or could not be reached.
    Remote(String),
    /// The task that stops processes on this machine did not finish.
    Task(String),
    /// The process on this machine could not be signalled.
    Signal(String),
}

/// Whether the process was signalled. A failure is an error, except that a
/// restart goes on where a process on this machine could not be signalled.
pub fn stop_answer(outcome: Result<bool, StopFailure>, restart: bool) -> (r: Result<bool, ApiError>)
    ensures
        match outcome {
            Ok(sent) => r == Ok::<bool, ApiError>(sent),
            Err(StopFailure::Remote(reason)) => r matches Err(e) && e.says(
                502,
                if restart {
                    "ssh stop (restart): "@
                } else {
                    "ssh stop: "@
                } + reason@,
            ),
            Err(StopFailure::Task(reason)) => r matches Err(e) && e.says(
                500,
                if restart {
                    "spawn_blocking (restart): "@
                } else {
                    "spawn_blocking: "@
                } + reason@,
            ),
            Err(StopFailure::Signal(reason)) => if restart {
                r == Ok::<bool, ApiError>(false)
            } else {
                r matches Err(e) && e.says(500, "stop_pid: "@ + reason@)
            },
        },
{
    match outcome {
        Ok(sent) => Ok(sent),
        Err(StopFailure::Remote(reason)) => {
            let front: &str = if restart {
                "ssh stop (restart): "
            } else {
                "ssh stop: "
            };
            Err(ApiError { status: 502, error: concat2(front, reason.as_str()) })
        },
        Err(StopFailure::Task(reason)) => {
            let front: &str = if restart {
                "spawn_blocking (restart): "
            } else {
                "spawn_blocking: "
            };
            Err(ApiError { status: 500, error: concat2(front, reason.as_str()) })
        },
        Err(StopFailure::Signal(reason)) => if restart {
            Ok(false)
        } else {
            Err(ApiError { status: 500, error: concat2("stop_pid: ", reason.as_str()) })
        },
    }
}

/// Forget the process that was stopped on a node, and what the node reported.
pub fn finish_stop(pids: &mut RuntimePids, monitor: &mut Monitor, node_id: &str, sent: bool) -> (r:
    StopResult)
    ensures
        r.sent == sent,
        final(pids)@ == old(pids)@.remove(node_id@),
        final(monitor).records@ == records_without(old(monitor).records@, node_id@),
        final(monitor).stores@ == stores_without(old(monitor).stores@, node_id@),
{
    pids.clear(node_id);
    monitor.drop_node(node_id);
    StopResult { sent }
}

/// The process to stop, if one is tracked, before the server on a node is
/// removed.
pub fn begin_delete(cfg: &ConsoleConfig, pids: &RuntimePids, node_id: &str) -> (r: Result<
    Option<StopTarget>,
    ApiError,
>)
    ensures
        match r {
            Ok(t) => {
                &&& hosts_server(cfg.servers@, node_id@)
                &&& match (t, pid_view(*pids, node_id@)) {
                    (Some(t), Some(pid)) => stops(*cfg, node_id@, pid, t),
                    (None, None) => true,
                    _ => false,
                }
            },
            Err(e) => !hosts_server(cfg.servers@, node_id@) && e.says(404, not_deployed(node_id@)),
        },
{
    match cfg.server_for_node(node_id) {
        Some(s) => {
            proof {
                let i = choose|i: int| #[trigger]
                    server_at(cfg.servers@, node_id@, i) && *s == cfg.servers@[i];
                assert(cfg.servers@[i].is_on(node_id@));
            }
        },
        None => {
            return Err(refuse(404, "no server deployed on node ", node_id, ""));
        },
    }
    match pids.get(node_id) {
        Some(pid) => Ok(Some(stop_target(cfg, node_id, pid))),
        None => Ok(None),
    }
}

/// Remove the server on a node and what is tracked of it.
pub fn finish_delete(cfg: &mut ConsoleConfig, pids: &mut RuntimePids, node_id: &str)
    requires
        old(cfg).wf(),
    ensures
        final(cfg).wf(),
        final(cfg).servers@ == servers_without(old(cfg).servers@, node_id@),
        *final(cfg) == (ConsoleConfig { servers: final(cfg).servers, ..*old(cfg) }),
        final(pids)@ == old(pids)@.remove(node_id@),
{
    let _removed: bool = cfg.remove_server_for_node(node_id);
    pids.clear(node_id);
}

/// The port of a URL is the number behind the colon of its host, whatever path
/// follows, with `http://` or `https://` before the host or nothing.
pub proof fn port_is_read_off_the_host(host: Seq<char>, port: u16, path: Seq<char>)
    requires
        !host.contains('/'),
    ensures
        ({
            let at = host + seq![':'] + dec(port as nat);
            &&& port_in("http://"@ + at) == Some(port as nat)
            &&& port_in("http://"@ + at + seq!['/'] + path) == Some(port as nat)
            &&& port_in("https://"@ + at) == Some(port as nat)
            &&& port_in("https://"@ + at + seq!['/'] + path) == Some(port as nat)
        }),
{
    let at = host + seq![':'] + dec(port as nat);
    let long = at + seq!['/'] + path;
    lemma_port_of(host, port);
    lemma_host_of(at, path);
    reveal_strlit("http://");
    reveal_strlit("https://");
    assert(("http://"@ + at).skip("http://"@.len() as int) =~= at);
    assert(("https://"@ + at).skip("https://"@.len() as int) =~= at);
    assert("http://"@ + at + seq!['/'] + path =~= "http://"@ + long);
    assert("https://"@ + at + seq!['/'] + path =~= "https://"@ + long);
    assert(("http://"@ + long).skip("http://"@.len() as int) =~= long);
    assert(("https://"@ + long).skip("https://"@.len() as int) =~= long);
    lemma_scheme_first(at);
    lemma_scheme_first(long);
}

proof fn lemma_scheme_first(rest: Seq<char>)
    ensures
        "http://"@.is_prefix_of("http://"@ + rest),
        !"http://"@.is_prefix_of("https://"@ + rest),
        "https://"@.is_prefix_of("https://"@ + rest),
{
    reveal_strlit("http://");
    reveal_strlit("https://");
    let a = "http://"@;
    let b = "https://"@;
    assert((a + rest).subrange(0, a.len() as int) =~= a);
    assert((b + rest).subrange(0, b.len() as int) =~= b);
    assert((b + rest).subrange(0, a.len() as int)[4] == 's');
    assert(a[4] == ':');
}

proof fn lemma_port_of(host: Seq<char>, port: u16)
    requires
        !host.contains('/'),
    ensures
        ({
            let at = host + seq![':'] + dec(port as nat);
            &&& !at.contains('/')
            &&& number(pieces(at, ':').last(), u16::MAX as nat) == Some(port as nat)
        }),
{
    let text = dec(port as nat);
    let at = host + seq![':'] + text;
    written_number_has_only_digits(port as nat);
    assert(!text.contains(':'));
    assert forall|i: int| 0 <= i < at.len() implies #[trigger] at[i] != '/' by {
        if i < host.len() {
            assert(host.contains(host[i]));
        } else if i > host.len() {
            assert(at[i] == text[i - host.len() - 1]);
        }
    }
    assert(at =~= host.push(':') + text);
    separator_parts_the_pieces(host, text, ':');
    text_without_separator_is_one_piece(text, ':');
    assert((pieces(host, ':') + seq![text]).last() == text);
    decimal_reads_back(port as nat, u16::MAX as nat);
}

proof fn lemma_host_of(at: Seq<char>, path: Seq<char>)
    requires
        !at.contains('/'),
    ensures
        pieces(at, '/')[0] == at,
        pieces(at + seq!['/'] + path, '/')[0] == at,
{
    text_without_separator_is_one_piece(at, '/');
    separator_parts_the_pieces(at, path, '/');
    assert(at + seq!['/'] + path =~= at.push('/') + path);
}

/// The process of a server runs where its node was seen up, has failed where
/// the node was seen down, and is unknown where the node was not seen at all.
pub proof fn process_runs_where_its_node_is_up(
    entry: ServerEntry,
    rec: Option<NodeRecord>,
    pid: Option<u32>,
    p: ServerProcess,
)
    requires
        process_of(entry, rec, pid, p),
    ensures
        p.state is Running <==> (rec matches Some(r) && r.health is Up),
        p.state is Failed <==> (rec matches Some(r) && r.health is Down),
        rec is None ==> p.state is Unknown && p.health is Unknown && p.last_seen_ms == 0,
        rec matches Some(r) ==> p.health == r.health && p.last_seen_ms == r.last_seen_ms,
        p.pid == pid,
        p.mgmt_url@ == entry.url@,
        entry.grpc_url matches Some(u) ==> p.grpc_url@ == u@,
{
}

/// A server in the list shows the pid that is tracked for its node.
pub proof fn row_shows_the_tracked_process(
    entry: ServerEntry,
    records: Seq<NodeRecord>,
    pids: RuntimePids,
    row: ServerSummary,
    node: String,
)
    requires
        row_of(entry, records, pids, row),
        entry.node_id == Some(node),
    ensures
        row.node_id == Some(node),
        row.mgmt_url@ == entry.url@,
        pids@.contains_key(node@) ==> row.pid == Some(pids@[node@]),
        !pids@.contains_key(node@) ==> row.pid is None,
        row.health == health_of(records, node@),
{
}

/// A process is stopped on the machine that it runs on: over the network if its
/// node is another machine, and here if its node is this machine or not known.
pub proof fn process_is_stopped_where_it_runs(
    cfg: ConsoleConfig,
    node_id: Seq<char>,
    pid: u32,
    t: StopTarget,
)
    requires
        stops(cfg, node_id, pid, t),
    ensures
        t.pid == pid,
        has_node(cfg.nodes@, node_id) && (forall|i: int|
            0 <= i < cfg.nodes@.len() && (#[trigger] cfg.nodes@[i]).id@ == node_id
                ==> cfg.nodes@[i].is_remote()) ==> t.remote is Some,
        (forall|i: int|
            0 <= i < cfg.nodes@.len() && (#[trigger] cfg.nodes@[i]).id@ == node_id
                ==> !cfg.nodes@[i].is_remote()) ==> t.remote is None,
        t.remote matches Some(n) ==> n.id@ == node_id,
{
    if let Some(n) = t.remote {
        let k = cfg.nodes@.index_of(n);
        assert(cfg.nodes@[k] == n);
    }
}

/// With the entry of its server a node hosts one, under the node's own id, at
/// the addresses and with the settings of the deployment.
pub proof fn deployed_server_is_on_its_node(
    servers: Seq<ServerEntry>,
    e: ServerEntry,
    node_id: Seq<char>,
    d: Deployed,
    mgmt_port: Option<u16>,
    grpc_port: Option<u16>,
    auto_start: bool,
    binary: Option<String>,
    election_profile: Option<String>,
)
    requires
        is_entry_of(e, node_id, d, mgmt_port, grpc_port, auto_start, binary, election_profile),
    ensures
        hosts_server(servers.push(e), node_id),
        e.id@ == node_id,
        e.node_id matches Some(n) && n@ == node_id,
        e.url@ == d.mgmt_url@,
        e.grpc_url matches Some(u) && u@ == d.grpc_url@,
        e.mgmt_port == mgmt_port,
        e.grpc_port == grpc_port,
        e.auto_start == auto_start,
        e.binary == binary,
        e.election_profile == election_profile,
{
    assert(servers.push(e).last() == e);
    assert(servers.push(e)[servers.len() as int].is_on(node_id));
}

/// A restart is refused only for want of a port in one of the server's URLs,
/// and as a fault of the server's side.
pub proof fn restart_needs_both_ports(s: ServerEntry, e: ApiError)
    requires
        restart_refused(s, e),
    ensures
        port_in(s.url@) is None || s.grpc_url is None || port_in(s.grpc_url->Some_0@) is None,
        e.status == 500,
{
}

/// The answer to a deployment tells where the server is and what process it is.
pub proof fn deployment_is_answered_with_the_process(
    r: DeployResult,
    node_id: Seq<char>,
    d: Deployed,
)
    requires
        is_answer_for(r, node_id, d),
    ensures
        r.node_id@ == node_id,
        r.mgmt_url@ == d.mgmt_url@,
        r.grpc_url@ == d.grpc_url@,
        r.pid == d.pid,
{
}

} // verus!
