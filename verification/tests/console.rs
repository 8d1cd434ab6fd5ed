//! The console: registry, plans across nodes, keys and values.

use crowkv::common::api::ApiError;
use crowkv::console::config::{ConsoleConfig, NodeEntry, ServerEntry};
use crowkv::console::expand::RecursiveDepth;
use crowkv::console::health::healthz;
use crowkv::console::kv::{
    after_attempt, decode_hex, decode_key, decode_prefix, decode_put, decode_value,
    default_scan_limit, get_response, resolve_kv_endpoint, scan_response, write_response,
    AttemptOutcome, AttemptStep, GetOutcome, KvScanQuery, KvWriteBody, ScanOutcome,
};
use crowkv::console::lifecycle::{
    add_rack, add_rack_node, begin_delete, begin_ping, begin_stop, deploy_failed, deploy_target,
    finish_delete, finish_stop, get_node, get_node_server, get_rack, list_nodes, list_rack_nodes, list_servers,
    ping_result, port_of, record_deployment, record_restart, restart_plan, stop_answer, AddRackBody,
    Deployed, DeployNodeServerBody, NodeQuery, PingStep, ProcState, StopFailure,
};
use crowkv::console::mgmt::{
    next_group_step, next_store_step, plan_group, plan_store, remove_store_calls, store_targets,
    AddReplicaBody, CreateGroupBody, CreateStoreBody, GroupView, ReplicaView,
};
use crowkv::console::openapi::{begin_openapi, finish_openapi, Fetched, OpenApiStep};
use crowkv::console::plan::{Call, Request, Step};
use crowkv::console::replicas::{
    get_replica, new_replica_id, next_replica_step, plan_replica, remove_group_calls,
    remove_replica_calls,
};
use crowkv::console::reports::{
    get_group, get_store, hosts_store, leader_for, list_groups, list_replicas, list_stores,
    store_ids, NodeGroup, NodeHealth, NodeRecord, NodeStore,
};
use crowkv::console::reset::{begin_teardown, clear_state, processes_to_stop, reset_result};
use crowkv::console::state::{AppState, Monitor, RuntimePids};
use crowkv::server::startup::bootstrap_store;
use crowkv::server::store_registry::KvStoreRegistry;

fn node(id: &str, rack_id: &str) -> NodeEntry {
    NodeEntry {
        id: id.to_string(),
        rack_id: rack_id.to_string(),
        host: "127.0.0.1".to_string(),
        ssh_port: 22,
        ssh_user: String::new(),
    }
}

fn server(node_id: &str, url: &str, grpc: &str) -> ServerEntry {
    let mut s = ServerEntry::new(node_id.to_string(), url.to_string());
    s.node_id = Some(node_id.to_string());
    s.grpc_url = Some(grpc.to_string());
    s
}

/// Three nodes with servers.
fn cluster() -> ConsoleConfig {
    let mut cfg = ConsoleConfig::new();
    add_rack(&mut cfg, AddRackBody { id: "r1".to_string(), name: "r1".to_string() }).unwrap();
    for n in ["n1", "n2", "n3"] {
        cfg.add_node(node(n, "r1")).unwrap();
        cfg.add_server(server(n, &format!("http://{n}:80"), &format!("{n}:90"))).unwrap();
    }
    cfg
}

fn hosted(node_id: &str, store_id: u64, groups: &[(u64, u64, Option<u64>)]) -> NodeStore {
    NodeStore {
        node_id: node_id.to_string(),
        store_id,
        groups: groups
            .iter()
            .map(|g| NodeGroup { group_id: g.0, replica_id: g.1, leader_hint: g.2 })
            .collect(),
    }
}

fn up(node_id: &str) -> NodeRecord {
    NodeRecord { node_id: node_id.to_string(), health: NodeHealth::Up, last_seen_ms: 1 }
}

fn call(step: Step) -> Call {
    match step {
        Step::Call(c) => c,
        other => panic!("expected a call, got {other:?}"),
    }
}

fn refusal(step: Step) -> ApiError {
    match step {
        Step::Refused(e) => e,
        other => panic!("expected a refusal, got {other:?}"),
    }
}

#[test]
fn rack_node_crud_through_web_routes() {
    let mut cfg = ConsoleConfig::new();
    assert_eq!(cfg.racks.len(), 0);

    let rack = add_rack(&mut cfg, AddRackBody { id: "r1".to_string(), name: "rack-1".to_string() }).unwrap();
    assert_eq!(rack.id, "r1");

    let e = add_rack(&mut cfg, AddRackBody { id: "r1".to_string(), name: String::new() }).unwrap_err();
    assert_eq!(e.status, 409);

    let detail = get_rack(&cfg, "r1").unwrap();
    assert_eq!(detail.id, "r1");
    assert_eq!(detail.name, "rack-1");
    assert_eq!(detail.nodes.len(), 0);

    assert_eq!(cfg.add_node(node("n1", "ghost")).unwrap_err().status, 400);

    let added = add_rack_node(&mut cfg, "r1", node("n1", "ignored")).unwrap();
    assert_eq!(added.rack_id, "r1");

    assert_eq!(list_rack_nodes(&cfg, "r1").unwrap().len(), 1);
    assert_eq!(list_nodes(&cfg, &NodeQuery { rack_id: Some("r1".to_string()) }).len(), 1);
    assert_eq!(list_nodes(&cfg, &NodeQuery { rack_id: Some("other".to_string()) }).len(), 0);

    let pids = RuntimePids::new();
    let detail = get_node(&cfg, &vec![], &pids, "n1").unwrap();
    assert_eq!(detail.id, "n1");
    assert_eq!(detail.rack_id, "r1");
    assert!(!detail.has_server);

    assert_eq!(get_rack(&cfg, "r1").unwrap().nodes.len(), 1);
    assert_eq!(cfg.remove_rack("r1").unwrap_err().status, 409);

    match begin_ping(&cfg, "n1").unwrap() {
        PingStep::Answer(p) => assert!(p.ok),
        other => panic!("a local node needs no probe, got {other:?}"),
    }

    assert_eq!(get_node_server(&cfg, &pids, "n1").unwrap_err().status, 404);

    cfg.remove_node("n1").unwrap();
    cfg.remove_rack("r1").unwrap();
    assert!(cfg.racks.is_empty());
    assert!(cfg.nodes.is_empty());
}

#[test]
fn registry_refuses_what_is_not_there() {
    let mut cfg = cluster();
    assert_eq!(cfg.remove_rack("x").unwrap_err().error, "rack x not found");
    assert_eq!(cfg.remove_node("x").unwrap_err().error, "node x not found");
    assert_eq!(cfg.add_node(node("n1", "r1")).unwrap_err().status, 409);
    assert_eq!(get_rack(&cfg, "x").unwrap_err().error, "rack x not found");
    assert_eq!(list_rack_nodes(&cfg, "x").unwrap_err().status, 404);
    assert_eq!(get_node(&cfg, &vec![], &RuntimePids::new(), "x").unwrap_err().status, 404);
    assert_eq!(begin_ping(&cfg, "x").unwrap_err().status, 404);
    let again = cfg.add_server(server("n1", "u", "g")).unwrap_err();
    assert_eq!(again.error, "server n1 already exists");
    let mut other = server("n1", "u", "g");
    other.id = "other".to_string();
    assert_eq!(cfg.add_server(other).unwrap_err().error, "node n1 already hosts a deployed server");
}

#[test]
fn remote_nodes_are_probed() {
    let mut cfg = cluster();
    let mut far = node("far", "r1");
    far.ssh_user = "ops".to_string();
    cfg.add_node(far).unwrap();
    assert!(matches!(begin_ping(&cfg, "far").unwrap(), PingStep::Probe(n) if n.id == "far"));
    let p = ping_result(Err("no route".to_string()));
    assert!(!p.ok && p.error.as_deref() == Some("no route"));
    assert!(ping_result(Ok(())).ok);
}

#[test]
fn deploy_then_stop_local_server() {
    let mut cfg = ConsoleConfig::new();
    let mut pids = RuntimePids::new();
    add_rack(&mut cfg, AddRackBody { id: "r1".to_string(), name: String::new() }).unwrap();
    cfg.add_node(node("n1", "r1")).unwrap();
    assert_eq!(deploy_target(&cfg, "nope").unwrap_err().status, 404);
    assert_eq!(deploy_target(&cfg, "n1").unwrap().id, "n1");

    let body = DeployNodeServerBody { mgmt_port: 9910, grpc_port: 9911, binary: None };
    let deployed = Deployed {
        mgmt_url: "http://127.0.0.1:9910".to_string(),
        grpc_url: "127.0.0.1:9911".to_string(),
        pid: 77,
    };
    let r = record_deployment(&mut cfg, &mut pids, "n1", &body, Some("test".to_string()), deployed).unwrap();
    assert_eq!(r.node_id, "n1");
    assert!(r.pid > 0);

    let entry = get_node_server(&cfg, &pids, "n1").unwrap();
    assert_eq!(entry.url, "http://127.0.0.1:9910");
    assert_eq!(entry.pid, Some(77));
    assert_eq!(entry.mgmt_port, Some(9910));
    assert!(entry.auto_start);
    let detail = get_node(&cfg, &vec![up("n1")], &pids, "n1").unwrap();
    assert!(detail.has_server);
    let p = detail.server.unwrap();
    assert_eq!((p.state, p.pid, p.last_seen_ms), (ProcState::Running, Some(77), 1));

    assert_eq!(deploy_target(&cfg, "n1").unwrap_err().status, 409);

    let target = begin_stop(&cfg, &pids, "n1").unwrap();
    assert_eq!((target.pid, target.remote.is_none()), (77, true));
    let mut monitor = Monitor::new();
    monitor.set_node_report(up("n1"), vec![]);
    let sent = stop_answer(Ok(true), false).unwrap();
    assert!(finish_stop(&mut pids, &mut monitor, "n1", sent).sent, "stop should signal the running process");
    assert!(monitor.records.is_empty());
    let e = begin_stop(&cfg, &pids, "n1").unwrap_err();
    assert_eq!((e.status, e.error.as_str()), (400, "server on node n1 has no tracked pid"));
    assert_eq!(begin_stop(&cfg, &pids, "nope").unwrap_err().status, 404);

    assert!(begin_delete(&cfg, &pids, "n1").unwrap().is_none());
    finish_delete(&mut cfg, &mut pids, "n1");
    assert_eq!(get_node_server(&cfg, &pids, "n1").unwrap_err().error, "no server deployed on node n1");
}

#[test]
fn deploy_then_restart_local_server() {
    let mut cfg = ConsoleConfig::new();
    let mut pids = RuntimePids::new();
    add_rack(&mut cfg, AddRackBody { id: "r1".to_string(), name: String::new() }).unwrap();
    cfg.add_node(node("n1", "r1")).unwrap();
    assert_eq!(restart_plan(&cfg, &RuntimePids::new(), "n1").unwrap_err().error, "no server registered on node n1");
    let body = DeployNodeServerBody {
        mgmt_port: 9910,
        grpc_port: 9911,
        binary: Some("bin".to_string()),
    };
    let at = |pid: u32| Deployed {
        mgmt_url: "http://127.0.0.1:9910".to_string(),
        grpc_url: "127.0.0.1:9911".to_string(),
        pid,
    };
    record_deployment(&mut cfg, &mut pids, "n1", &body, None, at(1)).unwrap();
    let plan = restart_plan(&cfg, &pids, "n1").unwrap();
    assert_eq!(plan.stop.as_ref().map(|t| t.pid), Some(1));
    assert_eq!((plan.mgmt_port, plan.grpc_port), (9910, 9911), "restart reuses recorded ports");
    let r = record_restart(&mut cfg, &mut pids, "n1", plan.entry, at(2)).unwrap();
    assert_eq!(r.mgmt_url, "http://127.0.0.1:9910");
    assert_ne!(r.pid, 1, "restart should replace the process");
    let entry = get_node_server(&cfg, &pids, "n1").unwrap();
    assert_eq!(entry.pid, Some(2));
    assert_eq!(entry.binary.as_deref(), Some("bin"));
    assert_eq!(cfg.servers.len(), 1);
}

#[test]
fn restart_needs_ports_in_the_urls() {
    let mut cfg = ConsoleConfig::new();
    add_rack(&mut cfg, AddRackBody { id: "r".to_string(), name: String::new() }).unwrap();
    for n in ["a", "b", "c"] {
        cfg.add_node(node(n, "r")).unwrap();
    }
    cfg.add_server(server("a", "http://host", "h:1")).unwrap();
    let e = restart_plan(&cfg, &RuntimePids::new(), "a").unwrap_err();
    assert_eq!((e.status, e.error.as_str()), (500, "server entry has malformed mgmt_url: http://host"));
    cfg.add_server(server("b", "http://host:1", "h\"x")).unwrap();
    let e = restart_plan(&cfg, &RuntimePids::new(), "b").unwrap_err();
    assert_eq!(e.error, "server entry has malformed grpc_url: Some(\"h\\\"x\")");
    let mut none = server("c", "http://host:1", "");
    none.grpc_url = None;
    cfg.add_server(none).unwrap();
    assert_eq!(
        restart_plan(&cfg, &RuntimePids::new(), "c").unwrap_err().error,
        "server entry has malformed grpc_url: None"
    );
    cfg.nodes.clear();
    assert_eq!(restart_plan(&cfg, &RuntimePids::new(), "a").unwrap_err().error, "node a not found");
}

#[test]
fn ports_in_urls() {
    assert_eq!(port_of("http://host:9910"), Some(9910));
    assert_eq!(port_of("https://host:1/path:2"), Some(1));
    assert_eq!(port_of("host:65535"), Some(65535));
    assert_eq!(port_of("host:65536"), None);
    assert_eq!(port_of("9"), Some(9));
    assert_eq!(port_of("http://host"), None);
    assert_eq!(port_of(""), None);
    assert_eq!(port_of("[::1]:80"), Some(80));
}

#[test]
fn failed_deployments_say_which_kind() {
    assert_eq!(deploy_failed(true, false, "x").error, "ssh deploy: x");
    assert_eq!(deploy_failed(false, false, "x").error, "local deploy: x");
    assert_eq!(deploy_failed(true, true, "x").error, "ssh redeploy (restart): x");
    assert_eq!(deploy_failed(false, true, "x").error, "local redeploy (restart): x");
    assert_eq!(deploy_failed(false, true, "x").status, 502);
}

#[test]
fn failed_stops_say_which_kind() {
    let why = || "x".to_string();
    let e = stop_answer(Err(StopFailure::Remote(why())), false).unwrap_err();
    assert_eq!((e.status, e.error.as_str()), (502, "ssh stop: x"));
    let e = stop_answer(Err(StopFailure::Remote(why())), true).unwrap_err();
    assert_eq!(e.error, "ssh stop (restart): x");
    let e = stop_answer(Err(StopFailure::Task(why())), false).unwrap_err();
    assert_eq!((e.status, e.error.as_str()), (500, "spawn_blocking: x"));
    let e = stop_answer(Err(StopFailure::Task(why())), true).unwrap_err();
    assert_eq!(e.error, "spawn_blocking (restart): x");
    let e = stop_answer(Err(StopFailure::Signal(why())), false).unwrap_err();
    assert_eq!((e.status, e.error.as_str()), (500, "stop_pid: x"));
    assert!(!stop_answer(Err(StopFailure::Signal(why())), true).unwrap());
}

#[test]
fn topology_becomes_a_report() {
    let mut registry = KvStoreRegistry::new();
    registry.add_store(bootstrap_store(4, 0, &vec![6], 2, "test"));
    let topology = registry.export_topology();
    let mut monitor = Monitor::new();
    monitor.record_topology("n1", &topology);
    assert!(hosts_store(&monitor.stores, "n1", 4));
    let replicas = list_replicas(&monitor.stores, 4, 6).unwrap();
    assert_eq!((replicas[0].replica_id, replicas[0].node_id.as_str()), (2, "n1"));
    assert_eq!(monitor.stores[0].groups[0].leader_hint, None, "nobody leads yet");
    assert_eq!((monitor.records[0].health, monitor.records[0].last_seen_ms), (NodeHealth::Up, 1));
}

#[test]
fn servers_are_listed_with_what_is_known() {
    let mut cfg = cluster();
    cfg.add_server(ServerEntry::new("plain".to_string(), "http://p".to_string())).unwrap();
    let mut pids = RuntimePids::new();
    pids.set("n2", 5);
    pids.set("n2", 6);
    let down = NodeRecord { node_id: "n2".to_string(), health: NodeHealth::Down, last_seen_ms: 9 };
    let rows = list_servers(&cfg, &vec![up("n1"), down], &pids);
    assert_eq!(rows.len(), 4);
    assert_eq!((rows[0].health, rows[0].pid), (NodeHealth::Up, None));
    assert_eq!((rows[1].health, rows[1].pid), (NodeHealth::Down, Some(6)));
    assert_eq!(rows[2].health, NodeHealth::Unknown);
    assert_eq!((rows[3].node_id.as_deref(), rows[3].health), (None, NodeHealth::Unknown));
}

#[test]
fn full_mgmt_cycle_through_web_routes() {
    let cfg = cluster();
    let (store_id, group_id, group_id_2) = (7u64, 70u64, 80u64);
    let body = CreateStoreBody { store_id, group_id, replica_id: 700, nodes: vec!["n1".to_string()] };
    let targets = store_targets(&cfg, &body.nodes).unwrap();
    let plan = plan_store(&cfg, &body, &targets);
    let c = call(next_store_step(&plan, &vec![]));
    assert_eq!(c.url, "http://n1:80");
    assert!(matches!(c.request, Request::AddStore { store_id: 7, group_id: 70, replica_id: 700 }));
    assert!(matches!(next_store_step(&plan, &vec![None]), Step::Done));

    let mut reports = vec![hosted("n1", store_id, &[(group_id, 700, None)])];
    assert!(list_stores(&reports).iter().any(|s| s.store_id == store_id));
    assert_eq!(get_store(&reports, store_id).unwrap().nodes, vec!["n1".to_string()]);

    let body = CreateGroupBody { group_id: group_id_2, replica_id: 800, nodes: vec!["n1".to_string()] };
    let plan = plan_group(&cfg, store_id, &body).unwrap();
    let c = call(next_group_step(&plan, &vec![]));
    assert!(matches!(c.request, Request::AddGroup { store_id: 7, group_id: 80, replica_id: 800 }));
    reports[0].groups.push(NodeGroup { group_id: group_id_2, replica_id: 800, leader_hint: None });
    assert_eq!(list_groups(&reports, store_id).unwrap().len(), 2);

    let view = get_group(&reports, store_id, group_id_2).unwrap();
    let calls = remove_group_calls(&cfg, Some(&view), store_id, group_id_2).unwrap();
    assert_eq!(calls.len(), 1);
    assert!(matches!(calls[0].request, Request::RemoveGroup { store_id: 7, group_id: 80 }));
    let calls = remove_store_calls(&cfg, store_id, &vec!["n1".to_string(), "ghost".to_string()]);
    assert_eq!(calls.len(), 1);
    reports.clear();
    assert!(list_stores(&reports).is_empty(), "store {store_id} should be gone");
}

#[test]
fn failed_store_creation_is_undone() {
    let cfg = cluster();
    let nodes: Vec<String> = ["n1", "n2", "n3"].iter().map(|n| n.to_string()).collect();
    let body = CreateStoreBody { store_id: 1, group_id: 2, replica_id: 3, nodes: nodes.clone() };
    let fail = Some("boom".to_string());
    let plan = plan_store(&cfg, &body, &nodes);
    let c = call(next_store_step(&plan, &vec![None, None, fail.clone()]));
    assert_eq!(c.node_id, "n1");
    assert!(matches!(c.request, Request::RemoveStore { store_id: 1 }));
    let c = call(next_store_step(&plan, &vec![None, None, fail.clone(), None]));
    assert_eq!(c.node_id, "n2");
    let e = refusal(next_store_step(&plan, &vec![None, None, fail, None, None]));
    assert_eq!((e.status, e.error.as_str()), (502, "store create failed on node n3: boom"));

    assert_eq!(store_targets(&cfg, &vec![]).unwrap(), vec!["n1".to_string()]);
    let e = store_targets(&ConsoleConfig::new(), &vec![]).unwrap_err();
    assert_eq!((e.status, e.error.as_str()), (400, "no nodes with deployed servers"));
    let ghost = vec!["ghost".to_string()];
    let e = refusal(next_store_step(&plan_store(&cfg, &body, &ghost), &vec![]));
    assert_eq!(e.error, "node ghost has no deployed server");
}

#[test]
fn new_group_is_wired_between_its_nodes() {
    let cfg = cluster();
    let body = CreateGroupBody {
        group_id: 4,
        replica_id: 10,
        nodes: vec!["n1".to_string(), "n2".to_string()],
    };
    let plan = plan_group(&cfg, 1, &body).unwrap();
    let c = call(next_group_step(&plan, &vec![None]));
    assert!(matches!(c.request, Request::AddGroup { replica_id: 11, .. }));
    let c = call(next_group_step(&plan, &vec![None, None]));
    match c.request {
        Request::AddRemotes { remotes, .. } => {
            assert_eq!(c.node_id, "n1");
            assert_eq!(remotes.len(), 1);
            assert_eq!((remotes[0].replica_id, remotes[0].endpoint.as_str()), (11, "n2:90"));
        }
        other => panic!("unexpected {other:?}"),
    }
    let empty = CreateGroupBody { group_id: 4, replica_id: 1, nodes: vec![] };
    let e = plan_group(&cfg, 1, &empty).unwrap_err();
    assert_eq!((e.status, e.error.as_str()), (400, "nodes list must not be empty"));
    let e = refusal(next_group_step(&plan, &vec![Some("boom".to_string())]));
    assert_eq!(e.error, "group create failed on node n1: boom");
}

#[test]
fn replica_add_remove_wires_peers_bidirectionally() {
    let cfg = cluster();
    let (sid, gid) = (7u64, 70u64);
    let mut reports = vec![hosted("n1", sid, &[(gid, 1, None)])];
    let list = list_replicas(&reports, sid, gid).unwrap();
    assert_eq!(list.len(), 1, "expected 1 initial replica, got {list:?}");
    assert_eq!(list[0].replica_id, 1);
    assert_eq!(list[0].node_id, "n1");

    let view = get_group(&reports, sid, gid).unwrap();
    let body = AddReplicaBody { node_id: "n2".to_string(), replica_id: Some(2) };
    let rid = new_replica_id(Some(&view), sid, gid, &body).unwrap();
    assert_eq!(rid, 2);
    let had = hosts_store(&reports, "n2", sid);
    assert!(!had);
    let plan = plan_replica(&cfg, &view, sid, gid, rid, "n2", had).unwrap();
    let step = |replies: Vec<Option<String>>| next_replica_step(&plan, &replies);
    assert!(matches!(call(step(vec![])).request, Request::AddStore { replica_id: 2, .. }));
    let told = call(step(vec![None]));
    assert_eq!(told.node_id, "n1");
    match told.request {
        Request::AddRemotes { remotes, .. } => {
            assert!(remotes.iter().any(|r| r.replica_id == 2), "n1 should list r2 as remote");
            assert_eq!(remotes[0].endpoint, "n2:90");
        }
        other => panic!("unexpected {other:?}"),
    }
    let told = call(step(vec![None, None]));
    assert_eq!(told.node_id, "n2");
    match told.request {
        Request::AddRemotes { remotes, .. } => {
            assert!(remotes.iter().any(|r| r.replica_id == 1), "n2 should list r1 as remote");
        }
        other => panic!("unexpected {other:?}"),
    }
    assert!(matches!(step(vec![None, None, None]), Step::Done));

    reports.push(hosted("n2", sid, &[(gid, 2, None)]));
    let list = list_replicas(&reports, sid, gid).unwrap();
    assert_eq!(list.len(), 2, "expected 2 replicas after add, got {list:?}");
    let view = get_group(&reports, sid, gid).unwrap();
    let detail = get_replica(Some(&view), sid, gid, 2).unwrap();
    assert_eq!((detail.replica_id, detail.node_id.as_str()), (2, "n2"));
    assert_eq!(remove_replica_calls(&cfg, Some(&view), sid, gid, 999).unwrap_err().status, 404);

    let calls = remove_replica_calls(&cfg, Some(&view), sid, gid, 2).unwrap();
    assert_eq!(calls.len(), 2);
    assert_eq!(calls[0].node_id, "n1");
    assert!(matches!(calls[0].request, Request::RemoveRemote { replica_id: 2, .. }));
    assert_eq!(calls[1].node_id, "n2");
    assert!(matches!(calls[1].request, Request::RemoveGroup { .. }));
}

#[test]
fn failed_replica_is_undone() {
    let cfg = cluster();
    let replica = |id: u64, n: &str| ReplicaView { replica_id: id, node_id: n.to_string() };
    let view = GroupView {
        store_id: 1,
        group_id: 2,
        replicas: vec![replica(1, "n1"), replica(5, "ghost"), replica(3, "n3")],
    };
    let step = |had: bool, replies: Vec<Option<String>>| {
        next_replica_step(&plan_replica(&cfg, &view, 1, 2, 9, "n2", had).unwrap(), &replies)
    };
    let fail = || Some("boom".to_string());
    assert_eq!(
        refusal(step(true, vec![fail()])).error,
        "create local group on node n2: boom"
    );
    assert_eq!(
        refusal(step(false, vec![fail()])).error,
        "create local store on node n2: boom"
    );
    assert!(matches!(call(step(true, vec![])).request, Request::AddGroup { replica_id: 9, .. }));
    let undo = call(step(true, vec![None, None, fail()]));
    assert_eq!(undo.node_id, "n1");
    assert!(matches!(undo.request, Request::RemoveRemote { replica_id: 9, .. }));
    let undo = call(step(true, vec![None, None, fail(), None]));
    assert!(matches!(undo.request, Request::RemoveGroup { .. }));
    let undo = call(step(false, vec![None, None, fail(), None]));
    assert!(matches!(undo.request, Request::RemoveStore { .. }));
    assert_eq!(
        refusal(step(true, vec![None, None, fail(), None, None])).error,
        "wire new replica on peer n3: boom"
    );
    let all = vec![None, None, None, fail(), None, None, None];
    assert_eq!(refusal(step(true, all)).error, "wire existing peers on new replica: boom");

    let body = |id: Option<u64>| AddReplicaBody { node_id: "n2".to_string(), replica_id: id };
    assert_eq!(new_replica_id(Some(&view), 1, 2, &body(None)).unwrap(), 6);
    let e = new_replica_id(Some(&view), 1, 2, &body(Some(3))).unwrap_err();
    assert_eq!((e.status, e.error.as_str()), (409, "replica 3 already exists in group 2"));
    let top = GroupView { store_id: 1, group_id: 2, replicas: vec![replica(u64::MAX, "n1")] };
    assert_eq!(new_replica_id(Some(&top), 1, 2, &body(Some(3))).unwrap(), 3);
    let e = new_replica_id(None, 1, 2, &body(None)).unwrap_err();
    assert_eq!((e.status, e.error.as_str()), (404, "group 2 in store 1 not found"));
    let e = get_replica(Some(&view), 1, 2, 8).unwrap_err();
    assert_eq!(e.error, "replica 8 not found in group 2");
}

#[test]
fn stores_add_up_across_nodes() {
    let reports = vec![
        hosted("n2", 9, &[(1, 1, None)]),
        hosted("n1", 4, &[(1, 1, None), (2, 1, Some(8))]),
        hosted("n3", 4, &[(2, 2, Some(7)), (1, 2, Some(2))]),
    ];
    assert_eq!(store_ids(&reports), vec![4, 9]);
    let stores = list_stores(&reports);
    assert_eq!(stores[0].nodes, vec!["n1".to_string(), "n3".to_string()]);
    assert_eq!(stores[0].groups[0].group_id, 1);
    assert_eq!((stores[0].groups[0].replica_count, stores[0].groups[0].leader), (2, Some(2)));
    assert_eq!((stores[0].groups[1].replica_count, stores[0].groups[1].leader), (2, Some(8)));
    assert_eq!(get_store(&reports, 5).unwrap_err().error, "store 5 not found");
    assert_eq!(get_group(&reports, 4, 3).unwrap_err().error, "group 3 in store 4 not found");
    assert!(hosts_store(&reports, "n2", 9) && !hosts_store(&reports, "n2", 4));
}

#[test]
fn leader_is_the_named_one_or_one_that_answers() {
    let reports = vec![
        hosted("n1", 4, &[(1, 1, None)]),
        hosted("n2", 4, &[(1, 2, Some(2))]),
        hosted("n3", 4, &[(5, 1, Some(9))]),
    ];
    let leader = leader_for(&reports, &vec![], 4, 1).unwrap();
    assert_eq!((leader.replica_id, leader.node_id.as_str()), (2, "n2"));
    assert!(leader_for(&reports, &vec![], 4, 5).is_none());
    let leader = leader_for(&reports, &vec![up("n3")], 4, 5).unwrap();
    assert_eq!(leader.node_id, "n3");
    assert!(leader_for(&reports, &vec![up("n3")], 4, 6).is_none());

    let cfg = cluster();
    assert_eq!(resolve_kv_endpoint(&cfg, Some("n2"), 4, 1).unwrap(), "n2:90");
    let e = resolve_kv_endpoint(&cfg, None, 4, 6).unwrap_err();
    assert_eq!((e.status, e.error.as_str()), (404, "group 6 in store 4 not found or has no replicas"));
    let e = resolve_kv_endpoint(&cfg, Some("ghost"), 4, 6).unwrap_err();
    assert_eq!((e.status, e.error.as_str()), (502, "leader node ghost has no gRPC endpoint configured"));
}

#[test]
fn malformed_recursive_yields_400_on_every_get() {
    let e = RecursiveDepth::parse(Some("nope")).unwrap_err();
    assert_eq!(e.status, 400);
    assert!(e.error.contains("not an integer or \"all\""), "body: {}", e.error);
}

#[test]
fn out_of_range_recursive_yields_400() {
    let e = RecursiveDepth::parse(Some("99")).unwrap_err();
    assert_eq!(e.status, 400);
    assert!(e.error.contains("exceeds maximum"));
}

#[test]
fn absent_and_valid_recursive_values_are_accepted() {
    assert_eq!(RecursiveDepth::parse(None).unwrap(), RecursiveDepth::Flat);
    for (q, levels) in [("0", 0u64), ("1", 1), ("8", 8), ("all", 8), ("ALL", 8)] {
        assert_eq!(RecursiveDepth::parse(Some(q)).unwrap().effective(), levels, "depth of {q}");
    }
}

#[test]
fn keys_and_values_come_as_text_or_hexadecimal() {
    let text = |s: &str| Some(s.to_string());
    assert_eq!(decode_key(text("ab"), None).unwrap(), b"ab".to_vec());
    assert_eq!(decode_key(text("ab"), text("FF00")).unwrap(), vec![255, 0]);
    assert_eq!(decode_key(None, None).unwrap_err().status, 400);
    assert_eq!(decode_value(None, None).unwrap_err().status, 400);
    assert_eq!(decode_hex("0a0B").unwrap(), vec![10, 11]);
    let e = decode_hex("abc").unwrap_err();
    assert_eq!(e.status, 400);
    assert!(e.error.contains("Odd number of digits"));
    assert!(decode_hex("zz").unwrap_err().error.contains("Invalid character 'z' at position 0"));
    let body = KvWriteBody {
        key: text("k"),
        key_hex: None,
        value: None,
        value_hex: text("01"),
        client_id: 0,
        seq: 0,
    };
    assert_eq!(decode_put(body).unwrap(), (b"k".to_vec(), vec![1]));
    let q = KvScanQuery { prefix: None, prefix_hex: None, limit: default_scan_limit() };
    assert_eq!(decode_prefix(&q).unwrap(), Vec::<u8>::new());
}

#[test]
fn shown_values_can_be_written_back() {
    let value = vec![0u8, 0xC3, 0xA9, 0xFF];
    let r = get_response(GetOutcome::Found { value: value.clone(), revision: 3 });
    assert!(r.found);
    assert_eq!(r.value_hex.as_deref(), Some("00c3a9ff"));
    assert_eq!(r.value_utf8, Some(String::from_utf8_lossy(&value).into_owned()));
    assert_eq!(decode_hex(&r.value_hex.unwrap()).unwrap(), value);
    let none = get_response(GetOutcome::NotFound);
    assert!(!none.found && none.value_hex.is_none() && none.value_utf8.is_none());
    let w = write_response(9);
    assert_eq!((w.ok, w.revision), (true, 9));
    let s = scan_response(&ScanOutcome { items: vec![(b"k".to_vec(), b"v".to_vec())], truncated: true });
    assert!(s.truncated);
    assert_eq!((s.items[0].key_utf8.as_str(), s.items[0].value_hex.as_str()), ("k", "76"));
    let s = scan_response(&ScanOutcome {
        items: vec![("\u{e9}".as_bytes().to_vec(), vec![0xff])],
        truncated: false,
    });
    assert_eq!((s.items[0].key_utf8.as_str(), s.items[0].value_utf8.as_str()), ("\u{e9}", "\u{fffd}"));
}

#[test]
fn one_retry_after_a_node_that_does_not_lead() {
    let err = || ApiError { status: 502, error: "e".to_string() };
    assert!(matches!(after_attempt(false, AttemptOutcome::Succeeded), AttemptStep::Answer));
    assert!(matches!(after_attempt(false, AttemptOutcome::NotLeader(err())), AttemptStep::RefreshAndRetry));
    assert!(matches!(after_attempt(true, AttemptOutcome::NotLeader(err())), AttemptStep::Refuse(_)));
    assert!(matches!(after_attempt(false, AttemptOutcome::Failed(err())), AttemptStep::Refuse(_)));
}

#[test]
fn documents_are_kept_for_five_minutes() {
    let cfg = cluster();
    let mut state = AppState::with_config(cfg, None);
    let url = match begin_openapi(&state.config, &state.openapi_cache, "n1", 1_000).unwrap() {
        OpenApiStep::Fetch(url) => url,
        other => panic!("unexpected {other:?}"),
    };
    assert_eq!(url, "http://n1:80/openapi.json");
    let doc = finish_openapi(&mut state.openapi_cache, "n1", Fetched::Document("{}".to_string()), 1_000);
    assert_eq!(doc.unwrap(), "{}");
    finish_openapi(&mut state.openapi_cache, "n2", Fetched::Document("[]".to_string()), 2_000)
        .unwrap();
    assert_eq!(state.openapi_cache.get("n2", 2_000).map(String::as_str), Some("[]"));
    let at = |now: u64| begin_openapi(&state.config, &state.openapi_cache, "n1", now).unwrap();
    assert!(matches!(at(300_999), OpenApiStep::Cached(d) if d == "{}"));
    assert!(matches!(at(301_000), OpenApiStep::Fetch(_)));
    assert_eq!(
        begin_openapi(&state.config, &state.openapi_cache, "x", 0).unwrap_err().status,
        404
    );
    let fail = |f: Fetched| finish_openapi(&mut state.openapi_cache, "n1", f, 0).unwrap_err().error;
    let mut fail = fail;
    assert_eq!(fail(Fetched::Unreachable("a".to_string())), "openapi proxy: a");
    assert_eq!(fail(Fetched::Status("500".to_string())), "openapi proxy: upstream 500");
    assert_eq!(fail(Fetched::Malformed("b".to_string())), "openapi proxy: parse: b");
}

#[test]
fn slashes_at_the_end_of_a_url_do_not_count() {
    let mut cfg = ConsoleConfig::new();
    let mut s = ServerEntry::new("s".to_string(), "http://h:1//".to_string());
    s.node_id = Some("n".to_string());
    cfg.add_server(s).unwrap();
    let state = AppState::with_config(cfg, None);
    match begin_openapi(&state.config, &state.openapi_cache, "n", 0).unwrap() {
        OpenApiStep::Fetch(url) => assert_eq!(url, "http://h:1/openapi.json"),
        other => panic!("unexpected {other:?}"),
    }
}

#[test]
fn reset_tears_everything_down_in_order() {
    let mut cfg = cluster();
    let mut far = node("far", "r1");
    far.ssh_user = "ops".to_string();
    cfg.add_node(far).unwrap();
    cfg.add_server(ServerEntry::new("plain".to_string(), "http://p".to_string())).unwrap();
    let mut state = AppState::with_config(cfg, Some("console.toml".to_string()));
    state.pids.set("n2", 5);
    state.pids.set("far", 6);
    state.pids.set("stray", 7);
    state.monitor.set_node_report(up("n1"), vec![hosted("n1", 4, &[(1, 1, None)])]);
    state.monitor.set_node_report(up("n2"), vec![hosted("n2", 4, &[(1, 2, None)])]);

    let mut teardown = begin_teardown(&state.monitor.stores);
    assert_eq!(teardown.stores, vec![4]);
    let mut shapes: Vec<(String, bool)> = Vec::new();
    while let Some(calls) = teardown.next_calls(&state.config, &state.monitor.stores) {
        for c in calls {
            shapes.push((c.node_id.clone(), matches!(c.request, Request::RemoveStore { .. })));
        }
    }
    assert_eq!(
        shapes,
        vec![
            ("n1".to_string(), false),
            ("n2".to_string(), false),
            ("n1".to_string(), true),
            ("n2".to_string(), true)
        ],
        "the group goes before its store"
    );
    assert!(begin_teardown(&vec![]).stores.is_empty());

    let processes = processes_to_stop(&state.config, &state.pids);
    assert_eq!(processes.len(), 1, "processes on other machines go on");
    assert_eq!((processes[0].node_id.as_str(), processes[0].pid), ("n2", 5));
    assert_eq!(reset_result(&processes, &vec![true]).stopped, vec!["n2".to_string()]);
    assert!(reset_result(&processes, &vec![false]).stopped.is_empty());

    clear_state(&mut state);
    assert!(state.config.racks.is_empty() && state.config.nodes.is_empty());
    assert_eq!(state.config.servers.len(), 1);
    assert_eq!(state.config.servers[0].id, "plain");
    assert_eq!(state.pids.get("stray"), Some(7));
    assert_eq!(state.pids.get("n2"), None);
    assert!(state.monitor.stores.is_empty());
    assert_eq!(state.config_path.as_deref(), Some("console.toml"));
}

#[test]
fn a_report_replaces_the_one_before() {
    let mut state = AppState::new(vec!["http://a".to_string(), "http://b".to_string()]);
    assert_eq!(state.config.servers[0].id, "srv0");
    assert_eq!(state.config.servers[1].url, "http://b");
    state.monitor.set_node_report(up("n1"), vec![hosted("n1", 1, &[]), hosted("n1", 2, &[])]);
    state.monitor.set_node_report(up("n2"), vec![hosted("n2", 3, &[])]);
    state.monitor.set_node_report(up("n1"), vec![hosted("n1", 2, &[])]);
    assert_eq!(store_ids(&state.monitor.stores), vec![2, 3]);
    assert_eq!(state.monitor.records.len(), 2);
    state.monitor.drop_node("n2");
    assert_eq!(store_ids(&state.monitor.stores), vec![2]);
}

#[test]
fn console_is_alive() {
    assert_eq!(healthz(), "ok");
}

#[test]
fn plans_keep_to_the_nodes_they_began_with() {
    let mut cfg = cluster();
    let replica = |id: u64, n: &str| ReplicaView { replica_id: id, node_id: n.to_string() };
    let view = GroupView {
        store_id: 1,
        group_id: 2,
        replicas: vec![replica(1, "n1"), replica(3, "n3")],
    };
    let e = plan_replica(&cfg, &view, 1, 2, 9, "ghost", true).unwrap_err();
    assert_eq!((e.status, e.error.as_str()), (502, "node ghost has no deployed server"));
    let plan = plan_replica(&cfg, &view, 1, 2, 9, "n2", false).unwrap();
    let nodes: Vec<String> = vec!["n1".to_string(), "n2".to_string()];
    let body = CreateStoreBody { store_id: 1, group_id: 2, replica_id: 3, nodes: nodes.clone() };
    let store = plan_store(&cfg, &body, &nodes);

    cfg.remove_server_for_node("n2");
    cfg.remove_server_for_node("n1");
    let told = call(next_replica_step(&plan, &vec![None]));
    assert_eq!((told.node_id.as_str(), told.url.as_str()), ("n1", "http://n1:80"));

    let mut replies = vec![None, None, None, Some("gone".to_string())];
    let mut undone = Vec::new();
    let e = loop {
        match next_replica_step(&plan, &replies) {
            Step::Call(c) => {
                undone.push((c.node_id, c.request));
                replies.push(Some("whatever".to_string()));
            }
            Step::Refused(e) => break e,
            Step::Done => panic!("the addition failed"),
        }
    };
    assert_eq!(undone.len(), 3);
    assert!(matches!(&undone[0], (n, Request::RemoveRemote { replica_id: 9, .. }) if n == "n1"));
    assert!(matches!(&undone[1], (n, Request::RemoveRemote { replica_id: 9, .. }) if n == "n3"));
    assert!(matches!(&undone[2], (n, Request::RemoveStore { store_id: 1 }) if n == "n2"));
    assert_eq!((e.status, e.error.as_str()), (502, "wire existing peers on new replica: gone"));

    let undo = call(next_store_step(&store, &vec![None, Some("gone".to_string())]));
    assert_eq!(undo.url, "http://n1:80");
}
