//! Management of stores, groups and members.

use crowkv::cluster::group::PxGroup;
use crowkv::cluster::info::RemoteReplicaInfo;
use crowkv::cluster::kv_server::BindOutcome;
use crowkv::cluster::local_replica::PxLocalReplica;
use crowkv::cluster::remote_replica::PxRemoteReplica;
use crowkv::common::api::ApiError;
use crowkv::common::config::PxElectionConfig;
use crowkv::server::mgmt_api::{
    AddGroupInitialRole, AddGroupRequest, AddStoreRequest, RemovalFollowUp,
};
use crowkv::server::startup::{bootstrap_store, create_group_with_wal};
use crowkv::server::store_registry::KvStoreRegistry;

fn start_server(replica: u64) -> KvStoreRegistry {
    let mut registry = KvStoreRegistry::new();
    let store = bootstrap_store(0, 0, &vec![1], replica, "test");
    registry
        .add_started_store(store, BindOutcome::Bound(format!("127.0.0.1:{}", 28000 + replica)))
        .unwrap();
    registry
}

fn add_store(
    registry: &mut KvStoreRegistry,
    store_id: u64,
    group_id: u64,
    replica_id: u64,
) -> Result<usize, ApiError> {
    let req = AddStoreRequest {
        store_id,
        group_id: Some(group_id),
        replica_id: Some(replica_id),
        port: None,
    };
    let store = registry.new_store(&req)?;
    let addr = format!("127.0.0.1:{}", 29000 + store_id);
    let summary = registry.add_started_store(store, BindOutcome::Bound(addr))?;
    assert_eq!(summary.store_id, store_id);
    Ok(summary.group_count)
}

fn add_group(
    registry: &mut KvStoreRegistry,
    store_id: u64,
    group_id: u64,
    replica_id: u64,
) -> Result<bool, ApiError> {
    let req = AddGroupRequest { group_id, replica_id, initial_role: None, start_election: None };
    let role = registry.new_group_role(store_id, &req)?;
    let group = create_group_with_wal(
        store_id,
        group_id,
        PxLocalReplica::new(replica_id, role),
        role,
        PxElectionConfig::for_tests(),
        "/conf",
        None,
    );
    registry.add_created_group(store_id, &req, Ok(group))
}

fn remote(replica_id: u64, endpoint: &str) -> RemoteReplicaInfo {
    RemoteReplicaInfo { replica_id, endpoint: endpoint.to_string() }
}

fn two_remotes() -> Vec<RemoteReplicaInfo> {
    vec![remote(2, "192.168.1.2:28001"), remote(3, "192.168.1.3:28001")]
}

#[test]
fn health_check() {
    let mut server = start_server(1);
    let (status, body) = server.health_check();
    assert_eq!(status, 200);
    assert_eq!(body.status, "ok");
    assert!(body.messages.is_empty());

    let (status, body) = KvStoreRegistry::new().health_check();
    assert_eq!((status, body.status.as_str()), (200, "ok"));
    assert_eq!(body.messages, vec!["no stores configured".to_string()]);
}

#[test]
fn unhealthy_store_is_unavailable() {
    let mut registry = KvStoreRegistry::new();
    registry.add_store(bootstrap_store(3, 0, &vec![1], 1, "default"));
    let (status, body) = registry.health_check();
    assert_eq!((status, body.status.as_str()), (503, "unhealthy"));
}

#[test]
fn list_stores_with_initial_cli_store() {
    let mut server = start_server(1);
    let stores = server.list_stores();
    assert_eq!(stores.len(), 1);
    assert_eq!(stores[0].store_id, 0);
    assert!(stores[0].group_count >= 1);
}

#[test]
fn get_store_not_found() {
    let mut server = start_server(1);
    let e = server.get_store_detail(99).unwrap_err();
    assert_eq!(e.status, 404);
    assert_eq!(e.error, "store 99 not found");
}

#[test]
fn add_store_via_api() {
    let mut server = start_server(1);
    assert_eq!(add_store(&mut server, 5, 10, 2).unwrap(), 1);
    assert_eq!(server.list_stores().len(), 2);
}

#[test]
fn add_store_conflict() {
    let mut server = start_server(1);
    let e = add_store(&mut server, 0, 1, 1).unwrap_err();
    assert_eq!(e.status, 409);
    assert_eq!(e.error, "store 0 already exists");
}

#[test]
fn store_that_cannot_listen_is_not_added() {
    let mut server = start_server(1);
    let req = AddStoreRequest { store_id: 6, group_id: None, replica_id: None, port: Some(80) };
    let store = server.new_store(&req).unwrap();
    assert_eq!(store.listen_addr, "0.0.0.0:80");
    let e = server
        .add_started_store(store, BindOutcome::Refused("in use".to_string()))
        .unwrap_err();
    assert_eq!(e.status, 500);
    assert!(e.error.starts_with(
        "failed to start store gRPC server: failed to bind kv server on 0.0.0.0:80: in use"
    ));
    let store = server.new_store(&req).unwrap();
    let e = server
        .add_started_store(store, BindOutcome::AddressUnknown("lost".to_string()))
        .unwrap_err();
    assert!(e.error.contains("failed to read bound kv server address: lost"));
    assert_eq!(server.list_stores().len(), 1);
}

#[test]
fn remove_store_via_api() {
    let mut server = start_server(1);
    let store = server.remove_store_or_refuse(0).unwrap();
    assert_eq!(store.store_id, 0);
    assert_eq!(server.get_store_detail(0).unwrap_err().status, 404);
}

#[test]
fn remove_store_not_found() {
    let mut server = start_server(1);
    match server.remove_store_or_refuse(99) {
        Err(e) => assert_eq!(e.status, 404),
        Ok(_) => panic!("there is no store 99"),
    }
}

#[test]
fn list_groups() {
    let mut server = start_server(1);
    let groups = server.list_groups(0).unwrap();
    assert_eq!(groups.len(), 1);
    assert_eq!(groups[0].group_id, 1);
    assert_eq!(server.list_groups(7).unwrap_err().status, 404);
}

#[test]
fn add_group_via_api() {
    let mut server = start_server(1);
    assert!(add_group(&mut server, 0, 2, 1).unwrap());
    assert_eq!(server.list_groups(0).unwrap().len(), 2);
}

#[test]
fn add_group_conflict() {
    let mut server = start_server(1);
    let e = add_group(&mut server, 0, 1, 1).unwrap_err();
    assert_eq!(e.status, 409);
    assert_eq!(e.error, "group 1 already exists in store 0");
}

#[test]
fn add_group_store_not_found() {
    let mut server = start_server(1);
    assert_eq!(add_group(&mut server, 99, 1, 1).unwrap_err().status, 404);
}

#[test]
fn group_that_cannot_be_created_is_not_added() {
    let mut server = start_server(1);
    let req = AddGroupRequest {
        group_id: 4,
        replica_id: 1,
        initial_role: Some(AddGroupInitialRole::Follower),
        start_election: Some(false),
    };
    let e = server.add_created_group(0, &req, Err("disk full".to_string())).unwrap_err();
    assert_eq!(e.status, 500);
    assert_eq!(e.error, "failed to create WAL-backed group 4 in store 0: disk full");
    assert_eq!(server.list_groups(0).unwrap().len(), 1);
}

#[test]
fn remove_group_via_api() {
    let mut server = start_server(1);
    server.remove_group(0, 1).unwrap();
    assert_eq!(server.list_groups(0).unwrap().len(), 0);
}

#[test]
fn remove_group_not_found() {
    let mut server = start_server(1);
    let e = server.remove_group(0, 99).unwrap_err();
    assert_eq!(e.status, 404);
    assert_eq!(e.error, "group 99 not found in store 0");
}

#[test]
fn list_remotes_empty() {
    let mut server = start_server(1);
    assert_eq!(server.list_remote_replicas(0, 1).unwrap().len(), 0);
}

#[test]
fn add_and_list_remotes() {
    let mut server = start_server(1);
    server.add_remote_replicas(0, 1, &two_remotes()).unwrap();
    let remotes = server.list_remote_replicas(0, 1).unwrap();
    assert_eq!(remotes.len(), 2);
    assert_eq!(remotes[0].endpoint, "192.168.1.2:28001");
}

#[test]
fn add_remote_rejects_local_replica() {
    let mut server = start_server(1);
    let e = server.add_remote_replicas(0, 1, &vec![remote(1, "127.0.0.1:9999")]).unwrap_err();
    assert_eq!(e.status, 400);
}

#[test]
fn remove_remote_replica() {
    let mut server = start_server(1);
    server.add_remote_replicas(0, 1, &two_remotes()).unwrap();
    let _follow_up: RemovalFollowUp = server.remove_remote_replica(0, 1, 2).unwrap();
    let remotes = server.list_remote_replicas(0, 1).unwrap();
    assert_eq!(remotes.len(), 1);
    assert_eq!(remotes[0].replica_id, 3);
}

#[test]
fn remove_remote_rejects_local_replica() {
    let mut server = start_server(1);
    match server.remove_remote_replica(0, 1, 1) {
        Err(e) => assert_eq!(e.status, 400),
        Ok(_) => panic!("the local replica is no remote"),
    }
}

#[test]
fn remove_remote_not_found() {
    let mut server = start_server(1);
    match server.remove_remote_replica(0, 1, 99) {
        Err(e) => assert_eq!(e.status, 404),
        Ok(_) => panic!("there is no member 99"),
    }
}

#[test]
fn topology_export() {
    let mut server = start_server(1);
    let stores = server.export_topology();
    assert_eq!(stores.len(), 1);
    assert_eq!(stores[0].store_id, 0);
    assert_eq!(stores[0].groups.len(), 1);
    assert_eq!(stores[0].groups[0].group_id, 1);
    assert_eq!(stores[0].groups[0].local_replica.id, 1);
}

#[test]
fn batch_add_remotes_from_topology() {
    let mut server_a = start_server(1);
    let mut server_b = start_server(2);
    let topo_b = server_b.export_topology();
    server_a.batch_add_remote_replicas(0, 1, &topo_b).unwrap();
    let remotes = server_a.list_remote_replicas(0, 1).unwrap();
    assert_eq!(remotes.len(), 1);
    assert_eq!(remotes[0].replica_id, 2);
    assert_eq!(remotes[0].endpoint, "127.0.0.1:28002");
}

#[test]
fn progressive_setup_multiple_stores_groups_replicas() {
    let mut server = start_server(1);
    for sid in 1..3u64 {
        assert!(add_store(&mut server, sid, 1, sid + 1).is_ok(), "store {sid} should be created");
    }
    for sid in 0..3u64 {
        for gid in [2u64, 3] {
            assert!(add_group(&mut server, sid, gid, sid + 1).is_ok(), "group {gid} in store {sid}");
        }
    }
    for sid in 0..3u64 {
        assert_eq!(server.get_store_detail(sid).unwrap().groups.len(), 3);
    }
    let topo = server.export_topology();
    assert_eq!(topo.len(), 3);
    server.batch_add_remote_replicas(0, 1, &topo).unwrap();
    assert_eq!(server.list_remote_replicas(0, 1).unwrap().len(), 2);
    assert!(server.remove_store_or_refuse(2).is_ok());
    assert_eq!(server.list_stores().len(), 2);
}

/// Change the group 1 of the store 0.
fn with_group(registry: &mut KvStoreRegistry, change: impl FnOnce(&mut PxGroup)) {
    let mut store = registry.get_store(0).unwrap();
    let mut group = store.get_group(1).unwrap();
    change(&mut group);
    store.put_group(group);
    registry.add_store(store);
}

fn votes(registry: &mut KvStoreRegistry) -> Vec<(u64, bool)> {
    let mut found = Vec::new();
    with_group(registry, |g| {
        found = g.remote_replica_info().into_iter().map(|(id, _, v)| (id, v)).collect();
    });
    found
}

fn epoch(registry: &mut KvStoreRegistry) -> u64 {
    let mut found = 0;
    with_group(registry, |g| found = g.membership_epoch());
    found
}

#[test]
fn rebuilt_members_keep_their_votes() {
    let mut server = start_server(1);
    with_group(&mut server, |g| {
        g.add_remote_replica(PxRemoteReplica::new(2, "h:2".to_string()).with_voting(false));
    });
    server.add_remote_replicas(0, 1, &vec![]).unwrap();
    assert_eq!(votes(&mut server), vec![(2, false)]);
    server.add_remote_replicas(0, 1, &vec![remote(3, "h:3")]).unwrap();
    assert_eq!(votes(&mut server), vec![(2, false), (3, true)]);
    server.remove_remote_replica(0, 1, 3).unwrap();
    assert_eq!(votes(&mut server), vec![(2, false)]);
    server.add_remote_replicas(0, 1, &vec![remote(2, "h:9")]).unwrap();
    assert_eq!(votes(&mut server), vec![(2, true)], "a peer that is named anew has a vote");
}

#[test]
fn rebuilds_carry_the_epoch_on() {
    let mut server = start_server(1);
    with_group(&mut server, |g| {
        g.add_remote_replica(PxRemoteReplica::new(9, "h:9".to_string()).with_voting(false));
        g.set_membership_epoch(40);
    });
    server.add_remote_replicas(0, 1, &vec![]).unwrap();
    assert_eq!(epoch(&mut server), 40, "nobody was added");
    server.add_remote_replicas(0, 1, &two_remotes()).unwrap();
    assert_eq!(epoch(&mut server), 42);
    server.add_remote_replicas(0, 1, &vec![remote(3, "h:33")]).unwrap();
    assert_eq!(epoch(&mut server), 42, "the member had a vote already");
    server.remove_remote_replica(0, 1, 2).unwrap();
    assert_eq!(epoch(&mut server), 43);
    server.remove_remote_replica(0, 1, 9).unwrap();
    assert_eq!(epoch(&mut server), 43, "the member had no vote");
}

#[test]
fn rebuilds_give_out_no_slot_again() {
    let mut server = start_server(1);
    with_group(&mut server, |g| g.set_next_slot(17));
    server.add_remote_replicas(0, 1, &two_remotes()).unwrap();
    server.remove_remote_replica(0, 1, 2).unwrap();
    let mut next = 0;
    with_group(&mut server, |g| next = g.next_slot);
    assert_eq!(next, 17);
}

#[test]
fn removed_group_can_be_added_again() {
    let mut server = start_server(1);
    server.remove_group(0, 1).unwrap();
    assert_eq!(server.remove_group(0, 1).unwrap_err().status, 404);
    add_group(&mut server, 0, 1, 1).unwrap();
    assert_eq!(server.list_groups(0).unwrap().len(), 1);
}

#[test]
fn ports_are_handed_out_in_order() {
    let mut registry = KvStoreRegistry::new();
    registry.set_port_pool(vec![7, 8]);
    assert_eq!(registry.next_port(), Some(7));
    assert_eq!(registry.next_port(), Some(8));
    assert_eq!(registry.next_port(), None);
}
