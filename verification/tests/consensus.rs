//! Proposals, phases and clusters of several members.

use bytes::Bytes;
use crowkv::cluster::group::PxGroup;
use crowkv::cluster::inflight::{Admission, InflightAdmission};
use crowkv::cluster::kv_server::BindOutcome;
use crowkv::cluster::kv_store::{KvBatchItem, KvResponse, KvStore, WriteStart};
use crowkv::cluster::local_replica::{PxLocalReplica, PxLocalReplicaRole};
use crowkv::cluster::phases::{
    decide_accept, decide_prepare, AcceptAttempt, PrepareAttempt,
};
use crowkv::cluster::proposal::{
    retry_backoff, Proposal, ProposalPhase, ProposeResult, ProposeStart, ProposeStep, ProposeTurn,
};
use crowkv::cluster::px_kv_store::{encode_kv_payload, respond, PxKvStore};
use crowkv::cluster::remote_replica::{
    accept_reply, prepare_reply, status_to_err, AcceptResponse, AcceptedValue, PrepareResponse,
    PxRemoteReplica,
};
use crowkv::cluster::repair::{RepairOutcome, RepairStart};
use crowkv::cluster::replica::{PxReplicaError, Replica};
use crowkv::common::config::AdmissionPolicy;
use crowkv::paxos::acceptor::PxAcceptor;
use crowkv::paxos::error::PxPaxosError;
use crowkv::paxos::learner::PxLearner;
use crowkv::paxos::roles::{DedupTag, PxAcceptReply, PxBallot, PxLogEntry, PxPrepareReply};

const GROUP: u64 = 1;

/// Members of one group, each on its own node.
struct Cluster {
    stores: Vec<PxKvStore>,
}

impl Cluster {
    fn new(node_ids: &[u64]) -> Cluster {
        let mut stores = Vec::new();
        for (idx, &nid) in node_ids.iter().enumerate() {
            let rid = idx as u64 + 1;
            let role = if rid == 1 { PxLocalReplicaRole::Leader } else { PxLocalReplicaRole::Follower };
            let mut store = PxKvStore::new(nid, "0.0.0.0:0".to_string());
            let mut group = PxGroup::new(GROUP, PxLocalReplica::new(rid, role));
            for peer in 1..=node_ids.len() as u64 {
                if peer != rid {
                    group.add_remote_replica(PxRemoteReplica::new(peer, endpoint(peer)));
                }
            }
            group.local_replica.believed_leader = Some(1);
            store.add_group(group);
            store.start(BindOutcome::Bound(endpoint(rid))).unwrap();
            stores.push(store);
        }
        Cluster { stores }
    }

    fn group(&mut self, i: usize) -> PxGroup {
        self.stores[i].get_group(GROUP).unwrap()
    }

    /// Run the prepare phase of a proposal of member `i` among the members `up`.
    fn prepare(&mut self, i: usize, entry: PxLogEntry, quorum: usize, up: &[usize]) -> PrepareAttempt {
        let mut proposer = self.group(i);
        let local = proposer.local_replica.on_prepare(entry.slot, entry.ballot, entry.term);
        let mut replies = Vec::new();
        for (id, req) in proposer.prepare_requests(&entry) {
            let at = id as usize - 1;
            if up.contains(&at) {
                let mut peer = self.group(at);
                let ballot = PxBallot::new(req.round, req.leader_id);
                replies.push(Some(peer.local_replica.on_prepare(req.slot, ballot, req.term)));
                self.stores[at].put_group(peer);
            } else {
                replies.push(None);
            }
        }
        let attempt = proposer.run_prepare_phase(entry, quorum, &Some(local), &replies);
        self.stores[i].put_group(proposer);
        attempt
    }

    /// Run the accept phase of a proposal of member `i` among the members `up`.
    fn accept(&mut self, i: usize, entry: &PxLogEntry, quorum: usize, up: &[usize]) -> AcceptAttempt {
        let mut proposer = self.group(i);
        let local = proposer.local_replica.on_accept(entry);
        let mut replies = Vec::new();
        for (id, req) in proposer.accept_requests(entry, &vec![]) {
            let at = id as usize - 1;
            if up.contains(&at) {
                let mut peer = self.group(at);
                let sent = PxLogEntry {
                    slot: req.slot,
                    ballot: PxBallot::new(req.round, req.leader_id),
                    term: req.term,
                    payload: req.value.payload,
                };
                replies.push(Some(peer.local_replica.on_accept(&sent)));
                self.stores[at].put_group(peer);
            } else {
                replies.push(None);
            }
        }
        let decision = proposer.run_accept_phase(quorum, &Some(local), &replies);
        self.stores[i].put_group(proposer);
        decision.attempt
    }

    fn drive(&mut self, i: usize, start: ProposeStart, up: &[usize]) -> ProposeResult {
        let (mut p, mut turn): (Proposal, ProposeTurn) = match start {
            ProposeStart::Finished(r) => return r,
            ProposeStart::Running(p, turn) => (p, turn),
            other => panic!("unexpected start {other:?}"),
        };
        loop {
            match turn.step {
                ProposeStep::Finished(r) => return r,
                ProposeStep::Prepare => {
                    let group = self.group(i);
                    let entry = group.begin_prepare_phase(p.slot, &p.payload, p.min_round);
                    self.stores[i].put_group(group);
                    let attempt = self.prepare(i, entry, p.quorum, up);
                    let mut group = self.group(i);
                    turn = group.on_prepare_attempt(&mut p, attempt);
                    self.stores[i].put_group(group);
                }
                ProposeStep::Accept => {
                    let entry = match &p.phase {
                        ProposalPhase::Accepting { entry, .. } => entry.clone(),
                        other => panic!("unexpected phase {other:?}"),
                    };
                    let attempt = self.accept(i, &entry, p.quorum, up);
                    let mut group = self.group(i);
                    let (next, _chosen) = group.on_accept_attempt(&mut p, attempt);
                    self.stores[i].put_group(group);
                    turn = next;
                }
            }
        }
    }

    fn finish(&mut self, i: usize, start: WriteStart, up: &[usize], rid: u64, ms: u64) -> KvResponse {
        match start {
            WriteStart::Answered(r) => r,
            WriteStart::Proposed(s) => {
                let result = self.drive(i, s, up);
                respond(result, rid, ms)
            }
        }
    }

    fn put(&mut self, i: usize, key: &[u8], value: &[u8], client: u64, seq: u64, up: &[usize]) -> KvResponse {
        let start = self.stores[i].kv_put(GROUP, key.to_vec(), value.to_vec(), client, seq, 1, 2);
        self.finish(i, start, up, 1, 2)
    }

    fn get(&mut self, i: usize, key: &[u8]) -> KvResponse {
        self.stores[i].kv_get(GROUP, &key.to_vec(), 5, 6)
    }
}

fn endpoint(id: u64) -> String {
    format!("127.0.0.1:{}", 28000 + id)
}

fn entry(slot: u64, ballot: PxBallot, payload: &[u8]) -> PxLogEntry {
    PxLogEntry { slot, ballot, term: 0, payload: Bytes::copy_from_slice(payload) }
}

const ALL: [usize; 3] = [0, 1, 2];

#[test]
fn e2e_three_node_cluster_kv_put_batch_delete() {
    let mut cluster = Cluster::new(&[0, 1, 2]);
    for i in 0..3 {
        let group = cluster.group(i);
        assert_eq!(group.remote_replica_info().len(), 2, "node {i} should have 2 remotes");
        cluster.stores[i].put_group(group);
    }

    let resp = {
        let start = cluster.stores[0].kv_put(
            GROUP,
            b"hello".to_vec(),
            b"world".to_vec(),
            100,
            1,
            1001,
            10001,
        );
        cluster.finish(0, start, &ALL, 1001, 10001)
    };
    assert!(resp.ok, "put should succeed: {}", resp.error);
    assert_eq!((resp.request_id, resp.request_create_ms), (1001, 10001));
    assert_eq!(cluster.get(0, b"hello").value, b"world".to_vec());

    let items = vec![
        KvBatchItem { key: b"hello".to_vec(), value: b"updated".to_vec(), is_delete: false },
        KvBatchItem { key: b"foo".to_vec(), value: b"bar".to_vec(), is_delete: false },
    ];
    let start = cluster.stores[0].kv_batch_write(GROUP, &items, 100, 2, 1002, 10002);
    let resp = cluster.finish(0, start, &ALL, 1002, 10002);
    assert!(resp.ok, "batch should succeed: {}", resp.error);
    assert_eq!(cluster.get(0, b"hello").value, b"updated".to_vec());
    assert_eq!(cluster.get(0, b"foo").value, b"bar".to_vec());

    let start = cluster.stores[0].kv_delete(GROUP, b"hello".to_vec(), 100, 3, 1003, 10003);
    let resp = cluster.finish(0, start, &ALL, 1003, 10003);
    assert!(resp.ok, "delete should succeed: {}", resp.error);
    let gone = cluster.get(0, b"hello");
    assert!(gone.not_found && !gone.ok);
    let scan = cluster.stores[0].kv_scan(GROUP, &b"".to_vec(), 0, 7, 8);
    assert_eq!(scan.items.len(), 1);
    assert_eq!(scan.items[0].key, b"foo".to_vec());
}

#[test]
fn e2e_follower_returns_not_leader_hint() {
    let mut cluster = Cluster::new(&[0, 1, 2]);
    let leader_addr = cluster.stores[0].listen_addr().unwrap().to_string();
    let start = cluster.stores[1].kv_put(GROUP, b"k".to_vec(), b"v".to_vec(), 200, 1, 2001, 20001);
    let resp = cluster.finish(1, start, &ALL, 2001, 20001);
    assert!(!resp.ok);
    assert_eq!(resp.error, "not leader");
    assert_eq!(resp.not_leader_hint, leader_addr);
}

#[test]
fn e2e_topology_reflects_cluster_state() {
    let mut cluster = Cluster::new(&[10, 20, 30]);
    for (i, nid) in [10u64, 20, 30].into_iter().enumerate() {
        let status = cluster.stores[i].status();
        assert_eq!(status.store_id, nid);
        assert_eq!(status.groups.len(), 1);
        assert_eq!(status.groups[0].group_id, GROUP);
        assert_eq!(status.groups[0].local_replica.id, i as u64 + 1);
        assert!(status.listen_addr.unwrap().contains(':'));
    }
}

#[test]
fn e2e_dynamic_group_management() {
    let mut cluster = Cluster::new(&[0, 1, 2]);
    for i in 0..3 {
        let replica = PxLocalReplica::new(i as u64 + 1, PxLocalReplicaRole::Follower);
        cluster.stores[i].add_group(PxGroup::new(2, replica));
        assert_eq!(cluster.stores[i].group_count(), 2);
    }
    for i in 0..3 {
        assert!(cluster.stores[i].remove_group(2));
        assert_eq!(cluster.stores[i].group_count(), 1);
    }
    let resp = cluster.put(0, b"after-remove", b"still-works", 300, 1, &ALL);
    assert!(resp.ok);
}

#[test]
fn a_majority_is_enough_and_a_minority_is_not() {
    let mut cluster = Cluster::new(&[0, 1, 2]);
    assert!(cluster.put(0, b"a", b"1", 1, 1, &[0, 2]).ok);
    let resp = cluster.put(0, b"b", b"2", 1, 2, &[0]);
    assert!(!resp.ok);
    assert!(cluster.get(0, b"b").not_found);
}

#[test]
fn repeated_operation_is_answered_with_its_slot() {
    let mut cluster = Cluster::new(&[0, 1, 2]);
    let first = cluster.put(0, b"a", b"1", 9, 1, &ALL);
    let again = cluster.put(0, b"a", b"2", 9, 1, &ALL);
    assert!(first.ok && again.ok);
    assert_eq!(first.revision, again.revision);
    assert_eq!(cluster.get(0, b"a").value, b"1".to_vec());
}

#[test]
fn known_operation_needs_no_slot() {
    let mut group = PxGroup::new(1, PxLocalReplica::new(1, PxLocalReplicaRole::Leader));
    let put = encode_kv_payload(&vec![(b"k".to_vec(), Some(b"v".to_vec()))]);
    let tag = DedupTag { client_id: 7, seq: 3 };
    group.local_replica.learn(&entry(4, PxBallot::new(0, 1), &put), &vec![tag]);
    group.next_slot = u64::MAX;
    match group.propose(b"other".to_vec(), Some(7), Some(3)) {
        ProposeStart::Finished(ProposeResult::Chosen { slot }) => assert_eq!(slot, 4),
        other => panic!("unexpected {other:?}"),
    }
    assert_eq!((group.next_slot, group.inflight_slot_count()), (u64::MAX, 0));
    assert_eq!(group.inflight.route_counter, 0);
}

#[test]
fn proposals_take_turns_with_the_queues() {
    let mut group = PxGroup::new(1, PxLocalReplica::new(1, PxLocalReplicaRole::Leader));
    group.set_inflight_config(2, 2, AdmissionPolicy::Queue);
    let queue = |start: ProposeStart| match start {
        ProposeStart::Running(p, _) => p.queue,
        other => panic!("unexpected {other:?}"),
    };
    assert_eq!(queue(group.propose(b"a".to_vec(), None, None)), 0);
    assert_eq!(queue(group.propose(b"b".to_vec(), None, None)), 1);
    assert_eq!(group.inflight.available, vec![0, 0]);
    let waiting = match group.propose(b"c".to_vec(), None, None) {
        ProposeStart::Waiting(w) => w,
        other => panic!("unexpected {other:?}"),
    };
    assert_eq!((waiting.queue, group.inflight.waiting, group.inflight.total_enqueued), (0, 1, 1));
    group.inflight.release(0);
    assert_eq!(queue(group.admit_waiting(waiting, 40)), 0);
    assert_eq!((group.inflight.waiting, group.inflight.total_wait_us), (0, 40));
    assert_eq!((group.inflight.route_counter, group.next_slot), (3, 4));
}

#[test]
fn missing_group_is_refused() {
    let mut store = PxKvStore::new(1, "0.0.0.0:0".to_string());
    let resp = store.kv_get(4, &b"k".to_vec(), 11, 12);
    assert!(!resp.ok && !resp.not_found);
    assert!(resp.error.contains("group"));
    match store.kv_put(4, b"k".to_vec(), b"v".to_vec(), 1, 1, 11, 12) {
        WriteStart::Answered(r) => assert_eq!(r.error, resp.error),
        WriteStart::Proposed(_) => panic!("there is no group to propose to"),
    }
}

#[test]
fn chosen_value_survives_a_second_proposer() {
    let mut cluster = Cluster::new(&[0, 1, 2]);
    let first = encode_kv_payload(&vec![(b"k".to_vec(), Some(b"old".to_vec()))]);
    let low = entry(1, PxBallot::new(1, 1), &first);
    match cluster.prepare(0, low.clone(), 2, &[0, 1]) {
        PrepareAttempt::Proceed { entry, foreign_value } => {
            assert!(!foreign_value);
            assert_eq!(cluster.accept(0, &entry, 2, &[0, 1]), AcceptAttempt::Chosen);
        }
        other => panic!("expected promises, got {other:?}"),
    }
    let second = encode_kv_payload(&vec![(b"k".to_vec(), Some(b"new".to_vec()))]);
    let high = entry(1, PxBallot::new(2, 3), &second);
    match cluster.prepare(2, high, 2, &[1, 2]) {
        PrepareAttempt::Proceed { entry, foreign_value } => {
            assert!(foreign_value, "the value that was chosen is proposed again");
            assert_eq!(entry.payload, low.payload);
            assert_eq!(cluster.accept(2, &entry, 2, &[1, 2]), AcceptAttempt::Chosen);
        }
        other => panic!("expected promises, got {other:?}"),
    }
    assert!(matches!(cluster.accept(0, &low, 2, &[0, 1]), AcceptAttempt::Retry { next_min_round: 3, .. }));
}

#[test]
fn acceptor_keeps_its_promises() {
    let mut a = PxAcceptor::new();
    let low = PxBallot::new(1, 5);
    let high = PxBallot::new(2, 1);
    assert!(high.is_above(&low));
    assert!(matches!(a.prepare(3, low), PxPrepareReply::Promised { slot: 3, accepted: None }));
    assert!(matches!(a.prepare(3, low), PxPrepareReply::Rejected { slot: 3, .. }));
    assert!(matches!(a.accept(&entry(3, low, b"x")), PxAcceptReply::Accepted { slot: 3, .. }));
    match a.prepare(3, high) {
        PxPrepareReply::Promised { accepted: Some(e), .. } => assert_eq!(e.payload, Bytes::from_static(b"x")),
        other => panic!("expected the accepted entry, got {other:?}"),
    }
    assert!(matches!(
        a.accept(&entry(3, low, b"y")),
        PxAcceptReply::Rejected { current_promised, .. } if current_promised == high
    ));
    assert_eq!(a.promised_at(3), Some(high));
    assert_eq!(a.promised_at(4), None);
    assert_eq!(a.accepted_at(3).unwrap().payload, Bytes::from_static(b"x"));
}

#[test]
fn prepare_phase_outcomes() {
    let e = entry(1, PxBallot::new(4, 1), b"own");
    let promise = || Some(PxPrepareReply::Promised { slot: 1, accepted: None });
    let run = |local: Option<PxPrepareReply>, replies: Vec<Option<PxPrepareReply>>| {
        let voting = vec![true; replies.len()];
        decide_prepare(e.clone(), 2, true, &local, &voting, &replies)
    };
    match run(promise(), vec![promise(), None]) {
        PrepareAttempt::Proceed { entry, foreign_value: false } => assert_eq!(entry.payload, e.payload),
        other => panic!("unexpected {other:?}"),
    }
    let reported = |round: u64, v: &[u8]| {
        Some(PxPrepareReply::Promised { slot: 1, accepted: Some(entry(1, PxBallot::new(round, 2), v)) })
    };
    match run(reported(1, b"low"), vec![reported(2, b"high"), None]) {
        PrepareAttempt::Proceed { entry, foreign_value: true } => {
            assert_eq!(entry.payload, Bytes::from_static(b"high"));
            assert_eq!(entry.ballot, e.ballot);
        }
        other => panic!("unexpected {other:?}"),
    }
    let rejected = Some(PxPrepareReply::Rejected { slot: 1, current_promised: PxBallot::new(9, 2) });
    match run(promise(), vec![rejected, None]) {
        PrepareAttempt::Retry { next_min_round: 9, error: PxPaxosError::PrepareRejected { .. } } => {}
        other => panic!("unexpected {other:?}"),
    }
    match run(promise(), vec![Some(PxPrepareReply::TermStale { slot: 1, new_term: 7 }), promise()]) {
        PrepareAttempt::Fail { error: PxPaxosError::TermStale { current_term: 7 } } => {}
        other => panic!("unexpected {other:?}"),
    }
    match run(promise(), vec![Some(PxPrepareReply::EpochMismatch { responder_epoch: 3 }), None]) {
        PrepareAttempt::Fail { error: PxPaxosError::MembershipEpochMismatch { responder_epoch: 3 } } => {}
        other => panic!("unexpected {other:?}"),
    }
    match run(promise(), vec![None, None]) {
        PrepareAttempt::Fail { error: PxPaxosError::QuorumUnavailable { .. } } => {}
        other => panic!("unexpected {other:?}"),
    }
}

#[test]
fn accept_phase_outcomes() {
    let yes = Some(PxAcceptReply::Accepted { slot: 1, ballot: PxBallot::new(1, 1) });
    let run = |early: bool, local: Option<PxAcceptReply>, replies: Vec<Option<PxAcceptReply>>| {
        let voting = vec![true; replies.len()];
        decide_accept(2, early, true, &local, &voting, &replies)
    };
    let d = run(true, yes, vec![yes, None]);
    assert_eq!(d.attempt, AcceptAttempt::Chosen);
    assert!(d.persist_deferred);
    assert!(!run(true, None, vec![yes, yes]).persist_deferred);
    let rejected = Some(PxAcceptReply::Rejected { slot: 1, current_promised: PxBallot::new(6, 2) });
    assert!(matches!(
        run(false, yes, vec![rejected, None]).attempt,
        AcceptAttempt::Retry { next_min_round: 7, error: PxPaxosError::AcceptRejected { .. } }
    ));
    let stale = Some(PxAcceptReply::TermStale { slot: 1, new_term: 8 });
    assert!(matches!(
        run(false, yes, vec![stale, rejected]).attempt,
        AcceptAttempt::Fail { error: PxPaxosError::TermStale { current_term: 8 } }
    ));
    assert_eq!(run(false, yes, vec![stale, yes]).attempt, AcceptAttempt::Chosen);
    let epoch = Some(PxAcceptReply::EpochMismatch { responder_epoch: 2 });
    assert!(matches!(
        run(false, yes, vec![epoch, None]).attempt,
        AcceptAttempt::Fail { error: PxPaxosError::MembershipEpochMismatch { responder_epoch: 2 } }
    ));
    assert!(matches!(
        run(false, yes, vec![None, None]).attempt,
        AcceptAttempt::Fail { error: PxPaxosError::QuorumUnavailable { .. } }
    ));
}

#[test]
fn backoff_doubles_up_to_its_limit() {
    let expected = [5u64, 10, 20, 40, 80, 160, 320, 320];
    for (attempt, ms) in expected.into_iter().enumerate() {
        assert_eq!(retry_backoff(attempt), ms);
    }
}

#[test]
fn responses_say_what_came_of_a_proposal() {
    let r = respond(ProposeResult::Chosen { slot: 8 }, 1, 2);
    assert!(r.ok);
    assert_eq!((r.version, r.revision, r.request_id, r.request_create_ms), (1, 8, 1, 2));
    let r = respond(ProposeResult::NotLeader { leader_hint: "h:1".to_string() }, 1, 2);
    assert_eq!((r.ok, r.error.as_str(), r.not_leader_hint.as_str()), (false, "not leader", "h:1"));
    let r = respond(ProposeResult::Busy, 1, 2);
    assert_eq!((r.ok, r.error.as_str()), (false, "busy"));
    let r = respond(ProposeResult::Failed("why".to_string()), 1, 2);
    assert_eq!((r.ok, r.error.as_str()), (false, "why"));
}

#[test]
fn full_window_refuses_or_waits() {
    let mut reject = InflightAdmission::new(1, 1, AdmissionPolicy::Reject);
    let held = match reject.acquire_permit() {
        Admission::Granted { queue } => queue,
        other => panic!("unexpected {other:?}"),
    };
    assert!(matches!(reject.acquire_permit(), Admission::Refused));
    assert_eq!(reject.occupied(), 1);
    reject.release(held);
    assert_eq!(reject.occupied(), 0);

    let mut wait = InflightAdmission::new(1, 1, AdmissionPolicy::Queue);
    let first = match wait.acquire_permit() {
        Admission::Granted { queue } => queue,
        other => panic!("unexpected {other:?}"),
    };
    let queue = match wait.acquire_permit() {
        Admission::Waiting { queue } => queue,
        other => panic!("unexpected {other:?}"),
    };
    wait.release(first);
    assert!(wait.grant_waiting(queue, 30));
    assert_eq!(wait.total_wait_us, 30);
    assert_eq!(InflightAdmission::new(10, 4, AdmissionPolicy::Reject).total_permits(), 12);
}

#[test]
fn busy_leader_answers_busy() {
    let mut group = PxGroup::new(1, PxLocalReplica::new(1, PxLocalReplicaRole::Leader));
    group.set_inflight_config(1, 1, AdmissionPolicy::Reject);
    let _first = group.propose(b"x".to_vec(), None, None);
    assert_eq!(group.inflight_slot_count(), 1);
    assert!(matches!(
        group.propose(b"y".to_vec(), None, None),
        ProposeStart::Finished(ProposeResult::Busy)
    ));
}

#[test]
fn collected_operations_are_proposed_together() {
    let mut group = PxGroup::new(1, PxLocalReplica::new(1, PxLocalReplicaRole::Leader));
    group.config.inflight.coalesce_window_us = 100;
    group.config.inflight.coalesce_max_keys = 2;
    let a = encode_kv_payload(&vec![(b"a".to_vec(), Some(b"1".to_vec()))]);
    let b = encode_kv_payload(&vec![(b"b".to_vec(), None)]);
    assert!(matches!(
        group.propose(a, Some(1), Some(1)),
        ProposeStart::Coalesced { arm_timer: true, flush_now: false }
    ));
    assert!(matches!(
        group.propose(b, Some(1), Some(2)),
        ProposeStart::Coalesced { arm_timer: false, flush_now: true }
    ));
    let (payload, tags) = group.flush_coalescer().unwrap();
    let both = encode_kv_payload(&vec![(b"a".to_vec(), Some(b"1".to_vec())), (b"b".to_vec(), None)]);
    assert_eq!(payload, Bytes::from(both));
    assert_eq!(tags, vec![DedupTag { client_id: 1, seq: 1 }, DedupTag { client_id: 1, seq: 2 }]);
    assert!(group.flush_coalescer().is_none());
}

#[test]
fn learner_moves_its_frontier_over_chosen_slots() {
    let mut learner = PxLearner::new();
    let put = |v: &[u8]| encode_kv_payload(&vec![(b"k".to_vec(), Some(v.to_vec()))]);
    learner.learn(&entry(2, PxBallot::new(0, 1), &put(b"two")), &vec![DedupTag { client_id: 4, seq: 1 }]);
    assert_eq!(learner.contiguous_chosen(), 0);
    assert_eq!(learner.last_chosen_slot(), 2);
    learner.learn(&entry(1, PxBallot::new(0, 1), &put(b"one")), &vec![]);
    assert_eq!(learner.contiguous_chosen(), 2);
    assert_eq!(learner.get(b"k"), Some((2, b"two".to_vec())), "the later slot wins");
    assert_eq!(learner.dedup_lookup(4, 1), Some(2));
    assert_eq!(learner.dedup_lookup(4, 2), None);
}

#[test]
fn repair_fills_the_lowest_hole() {
    let mut group = PxGroup::new(1, PxLocalReplica::new(1, PxLocalReplicaRole::Leader));
    let put = encode_kv_payload(&vec![(b"k".to_vec(), Some(b"v".to_vec()))]);
    group.local_replica.learn(&entry(2, PxBallot::new(0, 1), &put), &vec![]);
    let e = match group.repair_once() {
        RepairStart::Prepare { slot, payload } => group.begin_prepare_phase(slot, &payload, 0),
        other => panic!("slot 1 is a hole, got {other:?}"),
    };
    assert_eq!(e.slot, 1);
    let reply = group.local_replica.on_prepare(e.slot, e.ballot, e.term);
    let attempt = group.run_prepare_phase(e, 1, &Some(reply), &vec![]);
    let prepared = group.repair_prepared(attempt).unwrap();
    let reply = group.local_replica.on_accept(&prepared);
    let decision = group.run_accept_phase(1, &Some(reply), &vec![]);
    assert!(matches!(
        group.repair_accepted(&prepared, decision.attempt),
        RepairOutcome::Filled { slot: 1 }
    ));
    assert_eq!(group.local_replica().contiguous_chosen(), 2);
}

#[test]
fn wire_replies_read_in_their_order() {
    let base = PrepareResponse {
        slot: 4,
        term: 6,
        term_stale: false,
        rejected: false,
        rejected_round: 0,
        rejected_leader_id: 0,
        previously_accepted: None,
    };
    let stale = PrepareResponse { term_stale: true, rejected: true, ..base };
    assert!(matches!(prepare_reply(stale), PxPrepareReply::TermStale { slot: 4, new_term: 6 }));
    let promised = PrepareResponse {
        slot: 4,
        term: 6,
        term_stale: false,
        rejected: false,
        rejected_round: 0,
        rejected_leader_id: 0,
        previously_accepted: Some(AcceptedValue {
            slot: 4,
            round: 2,
            leader_id: 3,
            term: 1,
            payload: Bytes::from_static(b"p"),
        }),
    };
    match prepare_reply(promised) {
        PxPrepareReply::Promised { slot: 4, accepted: Some(e) } => {
            assert_eq!((e.slot, e.ballot, e.term), (4, PxBallot::new(2, 3), 1));
            assert_eq!(e.payload, Bytes::from_static(b"p"));
        }
        other => panic!("unexpected {other:?}"),
    }
    let accepted = AcceptResponse {
        slot: 4,
        round: 2,
        leader_id: 3,
        term: 1,
        term_stale: false,
        rejected: false,
        rejected_round: 0,
        rejected_leader_id: 0,
    };
    assert_eq!(
        accept_reply(accepted),
        PxAcceptReply::Accepted { slot: 4, ballot: PxBallot::new(2, 3) }
    );
    let rejected = AcceptResponse { rejected: true, rejected_round: 9, rejected_leader_id: 1, ..accepted };
    assert_eq!(
        accept_reply(rejected),
        PxAcceptReply::Rejected { slot: 4, current_promised: PxBallot::new(9, 1) }
    );
}

#[test]
fn peer_counts_its_calls_and_numbers_its_requests() {
    let mut peer = PxRemoteReplica::new(7, "h:1".to_string());
    assert_eq!((peer.id(), peer.endpoint(), peer.voting()), (7, Some("h:1"), true));
    assert_eq!(peer.alloc_request_id(), 1);
    assert_eq!(peer.alloc_request_id(), 2);
    peer.next_request_id = 0;
    assert_eq!(peer.alloc_request_id(), 1, "no request has the number 0");
    assert!(peer.answered(Ok(3u8), 12).is_ok());
    let failed: Result<u8, PxReplicaError> = Err(status_to_err("Unavailable", "gone"));
    match peer.answered(failed, 99) {
        Err(PxReplicaError::Internal(text)) => assert_eq!(text, "grpc Unavailable: gone"),
        other => panic!("unexpected {other:?}"),
    }
    let m = peer.metrics.snapshot();
    assert_eq!((m.rpc_count, m.err_count, m.last_rtt_ms), (1, 1, 12));
    assert_eq!(peer.status().messages, vec!["remote 7 (h:1): channel not yet established".to_string()]);
}

#[test]
fn membership_changes_move_the_epoch_and_the_quorum() {
    let mut group = PxGroup::new(1, PxLocalReplica::new(1, PxLocalReplicaRole::Leader));
    assert_eq!((group.quorum(), group.membership_epoch()), (1, 0));
    group.add_remote_replica(PxRemoteReplica::new(2, "b:1".to_string()));
    assert_eq!((group.quorum(), group.membership_epoch()), (2, 1));
    group.add_remote_replica(PxRemoteReplica::new(3, "c:1".to_string()).with_voting(false));
    assert_eq!((group.quorum(), group.membership_epoch()), (2, 1), "a learner changes neither");
    assert!(group.remove_remote_replica(2));
    assert_eq!((group.quorum(), group.membership_epoch()), (1, 2));
    assert!(!group.remove_remote_replica(2));
    assert_eq!(group.adopt_membership_epoch(1), 2, "epochs never go back");
    assert_eq!(group.adopt_membership_epoch(9), 9);
}

#[test]
fn safe_slot_waits_for_every_member() {
    let mut group = PxGroup::new(1, PxLocalReplica::new(1, PxLocalReplicaRole::Leader));
    group.add_remote_replica(PxRemoteReplica::new(2, "b:1".to_string()));
    group.add_remote_replica(PxRemoteReplica::new(3, "c:1".to_string()));
    let put = encode_kv_payload(&vec![(b"k".to_vec(), Some(b"v".to_vec()))]);
    for slot in 1..=3 {
        group.local_replica.learn(&entry(slot, PxBallot::new(0, 1), &put), &vec![]);
    }
    group.note_peer_applied(2, 3);
    assert_eq!(group.group_safe_slot(), 0, "member 3 was not heard from");
    group.note_peer_applied(3, 2);
    assert_eq!(group.group_safe_slot(), 2);
    group.reset_safe_slot_tracking();
    assert_eq!(group.group_safe_slot(), 0);
}
