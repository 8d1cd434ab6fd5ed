//! Starting a server: options, restored groups, membership files.

use bytes::Bytes;
use crowkv::cluster::group::{ConfigTarget, PxGroup};
use crowkv::cluster::group_config::{GroupConfigStore, PxGroupConfig, PxGroupMember};
use crowkv::cluster::local_replica::{PxLocalReplica, PxLocalReplicaRole};
use crowkv::cluster::proposal::{ProposalPhase, ProposeResult, ProposeStart, ProposeStep};
use crowkv::cluster::px_kv_store::encode_kv_payload;
use crowkv::common::config::{PxElectionConfig, WalConfig, WalRecordFormat};
use crowkv::common::metrics::{GroupKey, ReadRegistryHandles};
use crowkv::common::path::join_path;
use crowkv::group::group::PxGroup as RoutedGroup;
use crowkv::group::types::{PxGroupConfig as RoutedConfig, PxGroupMember as RoutedMember};
use crowkv::paxos::roles::{PxBallot, PxLogEntry};
use crowkv::server::cli::{parse_and_validate_cli_args, parse_id_list, parse_port_list, Cli};
use crowkv::server::engine_collector::{read_paxos_gauges, EngineCollector, EngineHandles};
use crowkv::server::startup::{
    bootstrap_store, create_group_with_wal, crowtree_options, group_wal_config, next_segment_id,
    store_crowtree_path, store_wal_root,
};
use crowkv::server::store_registry::{
    parse_crowtree_backend, parse_wal_backend, CrowtreeBackend, IoBackend, KvEngineKind,
    KvStoreRegistry,
};

fn encode_put_payload(key: &[u8], value: &[u8]) -> Vec<u8> {
    let mut buf = Vec::new();
    buf.push(1);
    buf.push(0);
    let key_len = u32::try_from(key.len()).expect("key length exceeds u32");
    buf.extend_from_slice(&key_len.to_le_bytes());
    buf.extend_from_slice(key);
    let value_len = u32::try_from(value.len()).expect("value length exceeds u32");
    buf.extend_from_slice(&value_len.to_le_bytes());
    buf.extend_from_slice(value);
    buf
}

/// Run a proposal of a group of one to its end.
fn run_alone(group: &mut PxGroup, start: ProposeStart) -> ProposeResult {
    let (mut p, mut turn) = match start {
        ProposeStart::Finished(r) => return r,
        ProposeStart::Running(p, turn) => (p, turn),
        other => panic!("unexpected start {other:?}"),
    };
    loop {
        match turn.step {
            ProposeStep::Finished(r) => return r,
            ProposeStep::Prepare => {
                let entry = group.begin_prepare_phase(p.slot, &p.payload, p.min_round);
                let reply = group.local_replica.on_prepare(entry.slot, entry.ballot, entry.term);
                let attempt = group.run_prepare_phase(entry, p.quorum, &Some(reply), &vec![]);
                turn = group.on_prepare_attempt(&mut p, attempt);
            }
            ProposeStep::Accept => {
                let entry = match &p.phase {
                    ProposalPhase::Accepting { entry, .. } => entry.clone(),
                    other => panic!("unexpected phase {other:?}"),
                };
                let reply = group.local_replica.on_accept(&entry);
                let decision = group.run_accept_phase(p.quorum, &Some(reply), &vec![]);
                turn = group.on_accept_attempt(&mut p, decision.attempt).0;
            }
        }
    }
}

#[test]
fn create_group_with_wal_restores_and_resumes_at_next_slot() {
    let store_id = 9;
    let group_id = 11;
    let replica_id = 7;
    let accepted_entry = PxLogEntry {
        slot: 2,
        ballot: PxBallot::new(3, replica_id),
        term: 3,
        payload: Bytes::from(encode_put_payload(b"restore-key", b"restore-value")),
    };
    let mut restored = PxLocalReplica::new(replica_id, PxLocalReplicaRole::Leader);
    restored.on_prepare(1, PxBallot::new(2, replica_id), 0);
    restored.on_accept(&accepted_entry);
    restored.learn(&accepted_entry, &vec![]);
    restored.current_term = 5;
    restored.voted_for = Some(99);

    let mut group = create_group_with_wal(
        store_id,
        group_id,
        restored,
        PxLocalReplicaRole::Leader,
        PxElectionConfig::for_tests(),
        "conf-root",
        None,
    );

    let replica = group.local_replica();
    assert_eq!(replica.current_term, 5);
    assert_eq!(replica.voted_for, Some(99));
    let accepted = replica.accepted_at(2).unwrap();
    assert_eq!(
        (accepted.slot, accepted.ballot, accepted.term, &accepted.payload),
        (accepted_entry.slot, accepted_entry.ballot, accepted_entry.term, &accepted_entry.payload)
    );
    assert_eq!(replica.promised_at(1), Some(PxBallot::new(2, replica_id)));
    assert_eq!(
        replica.learner.get(b"restore-key").map(|(_, v)| v),
        Some(b"restore-value".to_vec()),
        "WAL replay applies accepted slot 2 to the learner"
    );

    let start = group.propose(encode_put_payload(b"new-key", b"new-value"), Some(55), Some(1));
    match run_alone(&mut group, start) {
        ProposeResult::Chosen { slot } => assert_eq!(slot, 3),
        other => panic!("expected chosen proposal after restore, got {other:?}"),
    }
    assert_eq!(group.local_replica().accepted_at(3).unwrap().slot, 3);
}

#[test]
fn payloads_have_one_form() {
    assert_eq!(
        encode_kv_payload(&vec![(b"k".to_vec(), Some(b"value".to_vec()))]),
        encode_put_payload(b"k", b"value")
    );
}

#[test]
fn restored_members_keep_a_group_from_electing_itself() {
    let config = PxGroupConfig {
        group_id: 4,
        term: 2,
        members: vec![
            PxGroupMember { replica_id: 1, endpoint: "a:1".to_string(), voting: true },
            PxGroupMember { replica_id: 2, endpoint: "b:1".to_string(), voting: true },
            PxGroupMember { replica_id: 3, endpoint: "c:1".to_string(), voting: true },
        ],
    };
    assert_eq!((config.voting_count(), config.quorum()), (3, 2));
    let group = create_group_with_wal(
        1,
        4,
        PxLocalReplica::new(1, PxLocalReplicaRole::Follower),
        PxLocalReplicaRole::Follower,
        PxElectionConfig::for_tests(),
        "conf",
        Some(&config),
    );
    assert_eq!(group.quorum(), 2);
    assert_eq!(group.remote_replica_count(), 4, "a place for every id up to the highest");
    assert_eq!(group.member_endpoint(3), Some("c:1"));
    let (saved, target) = group.persist_config();
    assert_eq!(saved.members.len(), 3);
    assert!(matches!(target, ConfigTarget::GroupFile));
}

#[test]
fn membership_file_reads_back() {
    let config = PxGroupConfig {
        group_id: 4,
        term: 2,
        members: vec![PxGroupMember { replica_id: 9, endpoint: "h:1".to_string(), voting: false }],
    };
    let bytes = config.encode();
    let back = PxGroupConfig::decode(&bytes).unwrap();
    assert_eq!((back.group_id, back.term), (4, 2));
    assert_eq!(back.members[0].endpoint, "h:1");
    assert!(!back.members[0].voting);

    let store = GroupConfigStore::new("conf", 1, 4);
    assert!(store.path().starts_with("conf"));
    assert_eq!(store.tmp_path(), format!("{}.tmp", store.path()));
    assert!(store.loaded(None).unwrap().is_none());
    assert_eq!(store.loaded(Some(bytes)).unwrap().unwrap().group_id, 4);
}

#[test]
fn no_prefix_of_a_membership_file_is_read() {
    let member = |id: u64, e: &str| PxGroupMember {
        replica_id: id,
        endpoint: e.to_string(),
        voting: id % 2 == 1,
    };
    let config = PxGroupConfig { group_id: 4, term: 2, members: vec![member(9, "h:1"), member(10, "")] };
    let bytes = config.encode();
    for k in 0..bytes.len() {
        assert!(PxGroupConfig::decode(&bytes[..k]).unwrap_err().starts_with("truncated "), "{k}");
    }
    assert_eq!(PxGroupConfig::decode(&bytes).unwrap().members.len(), 2);
}

#[test]
fn broken_membership_files_are_refused() {
    let config = PxGroupConfig {
        group_id: 4,
        term: 2,
        members: vec![PxGroupMember { replica_id: 9, endpoint: "h:1".to_string(), voting: true }],
    };
    let bytes = config.encode();
    assert_eq!(PxGroupConfig::decode(&bytes[..4]).unwrap_err(), "truncated group_id");
    assert_eq!(PxGroupConfig::decode(&bytes[..12]).unwrap_err(), "truncated term");
    assert_eq!(PxGroupConfig::decode(&bytes[..16]).unwrap_err(), "truncated member_count");
    assert!(PxGroupConfig::decode(&bytes[..bytes.len() - 1]).unwrap_err().starts_with("truncated"));
    let mut wrong = bytes.clone();
    let last = wrong.len() - 1;
    wrong[last] = 0xFF;
    assert!(PxGroupConfig::decode(&wrong).unwrap_err().starts_with("invalid endpoint utf8: "));
}

#[test]
fn lists_of_numbers_and_ranges() {
    assert_eq!(parse_id_list("1,3").unwrap(), vec![1, 3]);
    assert_eq!(parse_id_list(" 2..4 , 3 ,7").unwrap(), vec![2, 3, 4, 7]);
    assert_eq!(parse_id_list("").unwrap_err(), "empty list");
    assert!(parse_id_list("x").is_err());
    assert!(parse_id_list("5..3").is_err());
    assert!(parse_id_list("3..3").is_err());
    assert_eq!(parse_port_list("8000..8002").unwrap(), vec![8000, 8001, 8002]);
    assert!(parse_port_list("70000").is_err());
}

fn options() -> Cli {
    Cli {
        management_port: 1,
        management_addr: "0.0.0.0".to_string(),
        ports: None,
        stores: Some("0..1".to_string()),
        groups: Some("1".to_string()),
        replica: 1,
        log: false,
        wal_root: None,
        config_root: None,
        election_profile: "default".to_string(),
        kv_engine: "memory".to_string(),
        data_root: None,
        kv_backend: "file".to_string(),
    }
}

#[test]
fn options_are_checked_in_order() {
    let ok = parse_and_validate_cli_args(&options()).unwrap().unwrap();
    assert_eq!(ok.store_ids, vec![0, 1]);
    assert_eq!(ok.group_ids, vec![1]);
    assert_eq!(ok.ports, vec![0, 0]);
    let none = Cli { stores: None, ..options() };
    assert!(parse_and_validate_cli_args(&none).unwrap().is_none());
    let bad = Cli { stores: Some("a".to_string()), replica: 0, ..options() };
    assert!(parse_and_validate_cli_args(&bad).unwrap_err().starts_with("invalid --stores: "));
    let bad = Cli { groups: Some("a".to_string()), replica: 0, ..options() };
    assert!(parse_and_validate_cli_args(&bad).unwrap_err().starts_with("invalid --groups: "));
    let bad = Cli { replica: 129, ..options() };
    assert_eq!(
        parse_and_validate_cli_args(&bad).unwrap_err(),
        "--replica must be in range [1, 128], got 129"
    );
    let bad = Cli { ports: Some("b".to_string()), ..options() };
    assert!(parse_and_validate_cli_args(&bad).unwrap_err().starts_with("invalid --ports: "));
    let bad = Cli { ports: Some("9000".to_string()), ..options() };
    assert_eq!(
        parse_and_validate_cli_args(&bad).unwrap_err(),
        "--ports has 1 ports but --stores needs 2"
    );
}

#[test]
fn directories_of_a_group() {
    assert_eq!(join_path("a", "b"), "a/b");
    assert_eq!(join_path("a/", "b"), "a/b");
    let wal = store_wal_root("wal", 3);
    assert!(wal.starts_with("wal/") && wal.contains('3'));
    let tree = store_crowtree_path("data", 3, 4);
    assert!(tree.starts_with("data/"));
    let o = crowtree_options("data", u64::MAX, 4, CrowtreeBackend::Block);
    assert_eq!((o.store_id, o.group_id), (0, 4), "an id that does not fit is left out");
    let c: WalConfig = group_wal_config("wal", 3, true, true);
    assert_eq!(c.wal_disks, vec![wal]);
    assert!(c.wal_skip_fsync);
    assert_eq!(c.wal_record_format, WalRecordFormat::TextLine);
    assert_eq!(next_segment_id(4), 5);
    assert_eq!(next_segment_id(u64::MAX), u64::MAX);
}

#[test]
fn options_name_engines_and_backends() {
    assert_eq!(KvEngineKind::parse("crowtree"), KvEngineKind::Crowtree);
    assert_eq!(KvEngineKind::parse("anything"), KvEngineKind::Memory);
    assert_eq!(parse_crowtree_backend("block"), CrowtreeBackend::Block);
    assert_eq!(parse_crowtree_backend("file"), CrowtreeBackend::File);
    assert_eq!(parse_wal_backend("file"), IoBackend::File);
}

#[test]
fn metrics_of_groups() {
    let key = GroupKey { store_id: 2, group_id: 5 };
    assert_eq!(EngineHandles::register(key).paxos_term, "s.2.g.5.paxos.current_term.g");
    assert_eq!(ReadRegistryHandles::register(key).barrier, "s.2.g.5.read.barrier.l");
    let mut replica = PxLocalReplica::new(1, PxLocalReplicaRole::Leader);
    replica.current_term = 8;
    assert_eq!(read_paxos_gauges(&replica).current_term, 8);
    let mut registry = KvStoreRegistry::new();
    registry.add_store(bootstrap_store(2, 0, &vec![5], 1, "test"));
    registry.add_store(bootstrap_store(3, 0, &vec![], 1, "test"));
    let mut c = EngineCollector::new();
    let first = c.collect(&mut registry, &vec![(key, 10)]);
    assert_eq!(first.len(), 1);
    assert_eq!((first[0].key, first[0].pages), (key, 10));
    assert_eq!(first[0].gauges.current_term, 0);
    assert_eq!(c.collect(&mut registry, &vec![(key, 14)])[0].pages, 4);
    assert_eq!(c.collect(&mut registry, &vec![])[0].pages, 0);
    assert_eq!(c.collect(&mut registry, &vec![(key, 3)])[0].pages, 0, "a counter that starts anew");
    registry.add_store(bootstrap_store(3, 0, &vec![8, 9], 1, "test"));
    assert_eq!(c.collect(&mut registry, &vec![]).len(), 3);
    registry.remove_store(2);
    assert_eq!(c.collect(&mut registry, &vec![]).len(), 2, "a group that is gone is passed over");
    assert_eq!(c.keys.len(), 3);
}

#[test]
fn page_counter_follows_the_reports() {
    let key = GroupKey { store_id: 2, group_id: 5 };
    let mut registry = KvStoreRegistry::new();
    registry.add_store(bootstrap_store(2, 0, &vec![5], 1, "test"));
    let mut c = EngineCollector::new();
    let mut counted = 0;
    for total in [3, 3, 10, 25] {
        counted += c.collect(&mut registry, &vec![(key, total)])[0].pages;
        assert_eq!(counted, total);
    }
    counted += c.collect(&mut registry, &vec![(key, 4)])[0].pages;
    counted += c.collect(&mut registry, &vec![(key, 9)])[0].pages;
    assert_eq!(counted, 30, "a counter that starts anew counts on from there");
}

#[test]
fn routing_table_of_a_group() {
    let member = |id: u64, e: &str| RoutedMember { node_id: id, endpoint: e.to_string(), voting: true };
    let config = RoutedConfig {
        group_id: 1,
        members: vec![member(1, "a"), member(2, "b")],
        quorum_size: 2,
        config_version: 1,
    };
    let mut group = RoutedGroup::new(config, 2, 1);
    assert_eq!(group.leader_endpoint().as_deref(), Some("b"));
    assert_eq!(group.update_member_endpoint(2, "b2".to_string()).as_deref(), Some("b"));
    assert_eq!(group.member_endpoint(2), Some("b2"));
    assert_eq!(group.leader_endpoint().as_deref(), Some("b2"));
    group.update_leader_id(1);
    assert_eq!(group.leader_endpoint().as_deref(), Some("a"));
    assert_eq!(group.member_endpoint(9), None);
}
