//! Replicas and their peers: settings, snapshots, maintenance and what goes
//! over the wire.

use bytes::Bytes;
use crowkv::cluster::group::PxGroup;
use crowkv::cluster::group_join::{receive_snapshot, ReceivedSnapshot, SnapshotItem};
use crowkv::cluster::group_maintenance::MaintenancePass;
use crowkv::cluster::local_replica::{PxLocalReplica, PxLocalReplicaRole};
use crowkv::cluster::proposal::{Proposal, ProposalPhase};
use crowkv::cluster::remote_replica::{
    AcceptResponse, HeartbeatRequest, PrepareResponse, PxRemoteReplica, VoteRequest,
};
use crowkv::cluster::replica::{
    HeartbeatReply, HeartbeatRequestPayload, PxReplicaError, StepDownReply, StepDownRequestPayload,
    VoteRequestPayload,
};
use crowkv::common::config::{
    AdmissionPolicy, CrowKVConfig, InflightConfig, PxElectionConfig, WalBlockAlignment, WalConfig,
};
use crowkv::engine::mem_engine::InMemoryEngine;
use crowkv::engine::op::{Batch, BatchOp, Op};
use crowkv::engine::store_engine::Engine;
use crowkv::paxos::roles::{DedupTag, PxAcceptReply, PxBallot, PxLogEntry, PxPrepareReply};
use crowkv::server::store_registry::KvStoreRegistry;

fn leader(id: u64) -> PxGroup {
    PxGroup::new(1, PxLocalReplica::new(id, PxLocalReplicaRole::Leader))
}

fn leader_of_three() -> PxGroup {
    let mut group = leader(1);
    group.add_remote_replica(PxRemoteReplica::new(2, "10.0.0.2:1".to_string()));
    group.add_remote_replica(PxRemoteReplica::new(3, "10.0.0.3:1".to_string()));
    group
}

fn heartbeat(applied: u64, durable: u64) -> HeartbeatReply {
    HeartbeatReply {
        term: 1,
        success: true,
        contiguous_chosen: applied,
        last_chosen_term: 1,
        contiguous_applied: applied,
        highest_seen_slot: applied,
        durable_snapshot_slot: durable,
    }
}

fn engine_with(key: &[u8], value: &[u8], slot: u64) -> InMemoryEngine {
    let mut engine = InMemoryEngine::new();
    let op = BatchOp { key: key.to_vec(), op: Op::Put(value.to_vec()) };
    engine.apply(slot, &Batch { ops: vec![op] });
    engine
}

/// A group whose learner stands at `slot`.
fn joined(mut group: PxGroup, slot: u64) -> PxGroup {
    let received = ReceivedSnapshot { term_at_slot: 3, membership_epoch: 8, bytes: vec![] };
    group.join_via_snapshot(&received, Ok((slot, engine_with(b"k", b"v", slot)))).unwrap();
    group
}

#[test]
fn snapshot_is_put_together_from_its_stream() {
    let items = vec![
        SnapshotItem::Data(vec![1, 2]),
        SnapshotItem::Header { term_at_slot: 3, membership_epoch: 8 },
        SnapshotItem::Empty,
        SnapshotItem::Data(vec![3]),
        SnapshotItem::Header { term_at_slot: 4, membership_epoch: 9 },
    ];
    let received = receive_snapshot(&items).unwrap();
    assert_eq!((received.term_at_slot, received.membership_epoch), (4, 9), "the last header counts");
    assert_eq!(received.bytes, vec![1, 2, 3]);
    assert_eq!(
        receive_snapshot(&vec![SnapshotItem::Data(vec![1])]).unwrap_err(),
        "snapshot join: stream ended without a header"
    );
}

#[test]
fn joining_resumes_at_the_snapshot() {
    let received = ReceivedSnapshot { term_at_slot: 3, membership_epoch: 8, bytes: vec![] };
    let mut group = leader(1);
    assert_eq!(
        group.join_via_snapshot(&received, Err("short read".to_string())).unwrap_err(),
        "snapshot join: engine import failed: short read"
    );
    assert_eq!((group.local_replica.contiguous_chosen(), group.membership_epoch()), (0, 0));

    assert_eq!(group.join_via_snapshot(&received, Ok((12, engine_with(b"k", b"v", 12)))), Ok(12));
    assert_eq!((group.local_replica.contiguous_chosen(), group.membership_epoch()), (12, 8));
}

#[test]
fn rebuild_inherits_the_local_state() {
    let mut prior = joined(leader(1), 12);
    prior.local_replica.current_term = 5;
    prior.local_replica.admin_step_down = true;
    prior.next_slot = 20;
    prior.proposing_term = 5;
    prior.group_safe_slot = 9;
    let mut rebuilt = leader_of_three();
    rebuilt.next_slot = 2;
    rebuilt.inherit_local_state_from(prior);
    assert_eq!(rebuilt.local_replica.contiguous_chosen(), 12);
    assert_eq!(rebuilt.local_replica.current_term, 5);
    assert!(!rebuilt.local_replica.admin_step_down);
    assert_eq!((rebuilt.next_slot, rebuilt.proposing_term, rebuilt.group_safe_slot), (20, 5, 9));
    assert_eq!(rebuilt.quorum(), 2, "the members are those of the rebuild");
    assert_eq!(rebuilt.membership_epoch(), 2, "the epoch too");
}

#[test]
fn inheriting_leaves_the_quorum_as_it_was() {
    let silent = PxLocalReplica::new(1, PxLocalReplicaRole::Follower).with_voting(false);
    let mut group = leader_of_three();
    assert_eq!(group.quorum(), 2);
    group.inherit_local_state_from(PxGroup::new(1, silent));
    assert_eq!(group.quorum(), 2);
    assert!(!group.local_replica.voting);
}

#[test]
fn heartbeat_replies_raise_the_watermarks() {
    let mut group = joined(leader_of_three(), 12);
    group.local_replica.durable_snapshot = Some(6);
    group.note_heartbeat_reply(2, &heartbeat(10, 4));
    assert_eq!(group.group_safe_slot, 0, "member 3 has not reported");
    assert_eq!(group.group_snapshot_slot, 4);
    group.note_heartbeat_reply(3, &heartbeat(7, 9));
    assert_eq!(group.group_safe_slot, 7);
    assert_eq!(group.group_snapshot_slot, 6, "durable here and on one other member");
    group.note_heartbeat_reply(3, &heartbeat(5, 1));
    assert_eq!((group.group_safe_slot, group.group_snapshot_slot), (7, 6), "neither falls back");
}

#[test]
fn maintenance_reclaims_what_is_durable_and_safe() {
    let mut group = leader(1);
    group.group_snapshot_slot = 4;
    group.group_safe_slot = 7;
    let untracked = group.run_pass(20);
    assert_eq!(
        untracked,
        MaintenancePass { gc_snapshot_slot: 4, gc_safe_slot: 7, log_gc_slot: None },
        "there is no log to reclaim"
    );
    assert_eq!(group.local_replica.durable_snapshot, None);

    group.local_replica.durable_snapshot = Some(3);
    assert_eq!(group.run_pass(5).log_gc_slot, Some(5));
    assert_eq!(group.run_pass(2).log_gc_slot, Some(5), "the durable mark does not fall back");
    assert_eq!(group.run_pass(30).log_gc_slot, Some(7), "not beyond the safe slot");
    assert_eq!(group.local_replica.durable_snapshot, Some(30));
    group.group_safe_slot = 0;
    assert_eq!(group.run_pass(31).log_gc_slot, None);
}

#[test]
fn maintenance_runs_once_and_only_with_background_work() {
    let mut group = leader(1);
    assert_eq!(group.maintenance_tick(false), Some(30_000));
    assert_eq!(group.maintenance_tick(true), None);
    group.config.election.election_driver_disabled = true;
    assert_eq!(group.maintenance_tick(false), None);
}

#[test]
fn only_a_leader_steps_down() {
    let mut group = leader(4);
    group.local_replica.current_term = 6;
    group.local_replica.believed_leader = Some(4);
    group.local_replica.lease_read_until_ms = 90;
    let reply = group.step_down_if_leader("drain");
    assert_eq!(reply, StepDownReply { accepted: true, current_term: 6, current_leader_id: 0 });
    assert_eq!(group.local_replica.role, PxLocalReplicaRole::Follower);
    assert_eq!(group.local_replica.lease_read_until_ms, 0);
    group.local_replica.believed_leader = Some(9);
    let again = group.step_down_if_leader("drain");
    assert_eq!(again, StepDownReply { accepted: false, current_term: 6, current_leader_id: 9 });
    group.local_replica.set_role(PxLocalReplicaRole::Leader);
    assert!(group.local_replica.is_leader());
}

#[test]
fn settings_are_taken_over() {
    let mut group = leader(1);
    group.set_wal_early_ack(true);
    group.set_async_engine_apply(true);
    assert!(group.config.wal_early_ack && group.config.async_engine_apply);
    assert_eq!(group.node_config_store_sid(), None);
    group.set_node_config_store(17);
    assert_eq!(group.node_config_store_sid(), Some(17));
    group.set_membership_epoch(40);
    assert_eq!(group.membership_epoch(), 40);

    let config = CrowKVConfig {
        inflight: InflightConfig {
            max_inflight_proposals: 10,
            inflight_queues: 4,
            inflight_admission: AdmissionPolicy::Queue,
            ..CrowKVConfig::default().inflight
        },
        ..CrowKVConfig::default()
    };
    group.set_from_config(&config);
    assert_eq!(group.config, config);
    assert_eq!(group.inflight_window_size(), 12, "three permits in each of four queues");
    assert_eq!(group.inflight_queue_count(), 4);
    assert_eq!(group.inflight_admission_policy(), AdmissionPolicy::Queue);
    assert_eq!(group.inflight_slot_count(), 0);

    let e2e = PxElectionConfig::for_e2e();
    assert_eq!((e2e.heartbeat_interval_ms, e2e.lease_duration_ms), (200, 600));
    assert!(KvStoreRegistry::new().with_wal_skip_fsync(true).wal_skip_fsync);
}

#[test]
fn log_configuration_names_its_directory_and_alignment() {
    let mut wal = WalConfig::with_root("/a".to_string());
    assert_eq!(wal.alignment(), WalBlockAlignment::Unaligned);
    wal.set_root("/b".to_string());
    assert_eq!(wal.wal_disks, vec!["/b".to_string()]);
    wal.wal_aligned = true;
    assert_eq!(wal.alignment(), WalBlockAlignment::Aligned { io_unit_bytes: 4096 });
}

#[test]
fn requests_carry_their_payload() {
    let mut peer = PxRemoteReplica::new(7, "h:1".to_string());
    let vote = VoteRequestPayload {
        term: 3,
        candidate_id: 1,
        last_chosen_slot: 12,
        last_chosen_term: 2,
    };
    assert_eq!(
        peer.vote_request(vote, 5),
        VoteRequest {
            version: 1,
            group_id: 5,
            term: 3,
            candidate_id: 1,
            accepted_log_tip_slot: 12,
            accepted_log_tip_term: 2,
            request_id: 0,
            request_create_ms: 0,
        }
    );
    let payload = HeartbeatRequestPayload {
        term: 3,
        leader_id: 1,
        prev_log_slot: 12,
        prev_log_term: 2,
        committed_safe_slot: 8,
        lease_grant_until_ms_mono: 90,
        t_send_ms_mono: 70,
    };
    let first = HeartbeatRequest {
        version: 1,
        group_id: 5,
        payload,
        request_id: 1,
        request_create_ms: 0,
    };
    assert_eq!(peer.heartbeat_request(payload, 5), first);
    assert_eq!(peer.heartbeat_request(payload, 5), HeartbeatRequest { request_id: 2, ..first });
    let down = peer.step_down_request(
        &StepDownRequestPayload { term: 3, target_leader_id: 7, reason: "drain".to_string() },
        5,
    );
    assert_eq!((down.version, down.group_id, down.term, down.target_leader_id), (1, 5, 3, 7));
    assert_eq!((down.reason.as_str(), down.request_id), ("drain", 0));
}

#[test]
fn answers_are_counted_and_read() {
    let mut peer = PxRemoteReplica::new(7, "h:1".to_string());
    let promised = PrepareResponse {
        slot: 4,
        term: 6,
        term_stale: false,
        rejected: true,
        rejected_round: 9,
        rejected_leader_id: 2,
        previously_accepted: None,
    };
    match peer.prepare_answered(Ok(promised), 11) {
        Ok(PxPrepareReply::Rejected { slot: 4, current_promised }) => {
            assert_eq!(current_promised, PxBallot::new(9, 2));
        }
        other => panic!("unexpected {other:?}"),
    }
    let accepted = AcceptResponse {
        slot: 4,
        round: 9,
        leader_id: 2,
        term: 6,
        term_stale: false,
        rejected: false,
        rejected_round: 0,
        rejected_leader_id: 0,
    };
    assert_eq!(
        peer.accept_answered(Ok(accepted), 13).unwrap(),
        PxAcceptReply::Accepted { slot: 4, ballot: PxBallot::new(9, 2) }
    );
    let gone: Result<AcceptResponse, PxReplicaError> =
        Err(PxReplicaError::Internal("gone".to_string()));
    assert!(peer.accept_answered(gone, 99).is_err());
    let m = peer.metrics.snapshot();
    assert_eq!((m.rpc_count, m.err_count, m.last_rtt_ms), (2, 1, 13));
}

#[test]
fn operations_go_with_their_own_value_only() {
    let tag = DedupTag { client_id: 3, seq: 8 };
    let own = Bytes::from_static(b"own");
    let proposal = |payload: &'static [u8], foreign_value: bool| Proposal {
        payload: own.clone(),
        dedup_tags: vec![tag],
        queue: 0,
        quorum: 2,
        slot: 4,
        base_term: 1,
        slot_attempt: 0,
        attempt: 0,
        force_prepare: true,
        min_round: 0,
        last_error: None,
        phase: ProposalPhase::Accepting {
            entry: PxLogEntry {
                slot: 4,
                ballot: PxBallot::new(1, 1),
                term: 1,
                payload: Bytes::from_static(payload),
            },
            foreign_value,
        },
    };
    assert_eq!(proposal(b"own", false).accept_tags(), vec![tag]);
    assert_eq!(proposal(b"other", true).accept_tags(), vec![]);
}
