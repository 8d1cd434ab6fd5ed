//! Elections, leases and stepping down.

use crowkv::cluster::election::{
    driver_seed, next_election_deadline, DriverStep, ElectionDriver, HeartbeatOutcome, LeaderEvent,
    LeaderStep, PreVoteOutcome, StepDownReason, VoteEvent, XorShift64,
};
use crowkv::cluster::group::PxGroup;
use crowkv::cluster::local_replica::{PxLocalReplica, PxLocalReplicaRole};
use crowkv::cluster::proposal::{ProposeResult, ProposeStart};
use crowkv::cluster::remote_replica::PxRemoteReplica;
use crowkv::cluster::replica::{HeartbeatReply, StepDownRequestPayload, VoteReply};
use crowkv::common::config::PxElectionConfig;

fn test_cfg() -> PxElectionConfig {
    PxElectionConfig::for_tests()
}

fn lone_group(group_id: u64, replica_id: u64) -> PxGroup {
    PxGroup::new(group_id, PxLocalReplica::new(replica_id, PxLocalReplicaRole::Follower))
}

fn group_of_three() -> PxGroup {
    let mut group = lone_group(1, 1);
    group.add_remote_replica(PxRemoteReplica::new(2, "10.0.0.2:1".to_string()));
    group.add_remote_replica(PxRemoteReplica::new(3, "10.0.0.3:1".to_string()));
    group
}

fn vote(term: u64, granted: bool) -> VoteReply {
    VoteReply { term, granted, contiguous_chosen: 4, last_chosen_term: 0, highest_seen_slot: 9 }
}

#[test]
fn election_driver_scaffold_starts_and_stops() {
    let cfg = test_cfg();
    let driver = ElectionDriver::new(driver_seed(1, 42, 1), &cfg, 0);
    match driver.run(Some(PxLocalReplicaRole::Follower), false) {
        DriverStep::SleepUntil { deadline_ms } => {
            assert!(deadline_ms <= cfg.election_max_ms);
            assert!(deadline_ms >= cfg.election_min_ms);
        }
        other => panic!("driver should still be running before cancel, got {other:?}"),
    }
    assert_eq!(driver.run(Some(PxLocalReplicaRole::Follower), true), DriverStep::Exit);
}

#[test]
fn election_driver_exits_when_group_dropped() {
    let driver = ElectionDriver::new(driver_seed(1, 7, 2), &test_cfg(), 0);
    assert_eq!(driver.run(None, false), DriverStep::Exit);
}

#[test]
fn single_voter_candidate_becomes_leader() {
    let mut group = lone_group(13, 5);
    group.run_election_attempt(&test_cfg(), &vec![], &vec![]);
    assert_eq!(
        group.local_replica().role,
        PxLocalReplicaRole::Leader,
        "expected Leader after self-quorum election"
    );
    assert_eq!(
        group.local_replica().current_term,
        1,
        "term should be bumped to 1 by become_candidate"
    );
}

#[test]
fn single_voter_with_prevote_enabled_becomes_leader() {
    let cfg = PxElectionConfig { prevote_enabled: true, ..PxElectionConfig::for_tests() };
    let mut group = lone_group(21, 9);
    group.run_election_attempt(&cfg, &vec![], &vec![]);
    assert_eq!(
        group.local_replica().role,
        PxLocalReplicaRole::Leader,
        "PreVote path should still reach Leader for a single-voter group"
    );
    assert_eq!(group.local_replica().current_term, 1);
}

#[test]
fn leader_heartbeat_tick_renews_lease() {
    let cfg = test_cfg();
    let mut group = lone_group(99, 31);
    group.run_election_attempt(&cfg, &vec![], &vec![]);
    assert_eq!(group.local_replica().role, PxLocalReplicaRole::Leader);

    let mut now: u64 = 1_000;
    let (term, _handoff) = group.enter_leader_state(now);
    let lease_before = group.local_replica().lease_read_until_ms;
    for _ in 0..4 {
        now += cfg.heartbeat_interval_ms;
        let (_payload, targets) = group.heartbeat_payload(&cfg, term, now);
        assert!(targets.is_empty(), "a lone replica sends no heartbeats");
        let outcome = group.run_heartbeat_round(&cfg, term, now, &vec![], now);
        assert_eq!(group.on_leader_event(term, LeaderEvent::Heartbeat(outcome)), LeaderStep::Wait);
    }
    let lease_after = group.local_replica().lease_read_until_ms;
    assert!(
        lease_after > lease_before,
        "lease_read_until should be extended by heartbeat ticks; before={lease_before:?} after={lease_after:?}"
    );
    assert_eq!(lease_after, now + cfg.lease_duration_ms - cfg.max_clock_skew_ms);
}

#[test]
fn admin_step_down_drops_leader_to_follower() {
    let mut group = lone_group(64, 17);
    group.run_election_attempt(&test_cfg(), &vec![], &vec![]);
    assert_eq!(group.local_replica().role, PxLocalReplicaRole::Leader);
    let term_before = group.local_replica().current_term;

    let reply = group.local_replica.handle_step_down(&StepDownRequestPayload {
        term: term_before,
        target_leader_id: 17,
        reason: "manual transfer".into(),
    });
    assert!(reply.accepted, "strict-fence StepDown should be accepted");
    assert_eq!(group.on_leader_event(term_before, LeaderEvent::AdminStepDown), LeaderStep::Exit);

    assert_eq!(group.local_replica().role, PxLocalReplicaRole::Follower);
    assert_eq!(group.local_replica().current_term, term_before);
}

#[test]
fn propose_after_admin_step_down_returns_not_leader() {
    let mut group = lone_group(77, 23);
    group.run_election_attempt(&test_cfg(), &vec![], &vec![]);
    assert_eq!(group.local_replica().role, PxLocalReplicaRole::Leader);
    let term = group.local_replica().current_term;
    assert_eq!(
        group.proposing_term, term,
        "proposing_term should match current_term after election win"
    );

    let reply = group.local_replica.handle_step_down(&StepDownRequestPayload {
        term,
        target_leader_id: 23,
        reason: "test step-down".into(),
    });
    assert!(reply.accepted);
    assert_eq!(group.local_replica().role, PxLocalReplicaRole::Follower);

    match group.propose(b"after-stepdown".to_vec(), Some(1), Some(1)) {
        ProposeStart::Finished(ProposeResult::NotLeader { .. }) => {}
        other => panic!("expected NotLeader after step-down, got {other:?}"),
    }
}

#[test]
fn xorshift_random_between_ms_stays_in_range() {
    let mut rng = XorShift64::new(0x1234_5678_9ABC_DEF0);
    for _ in 0..200 {
        let v = rng.random_between_ms(30, 60);
        assert!((30..=60).contains(&v), "v={v} out of [30, 60]");
    }
}

#[test]
fn generator_follows_its_formula() {
    let mut rng = XorShift64::new(1);
    let mut x: u64 = 1;
    x ^= x << 13;
    x ^= x >> 7;
    x ^= x << 17;
    assert_eq!(rng.next_u64(), x.wrapping_mul(0x2545_F491_4F6C_DD1D));
    let mut fixed = XorShift64::new(0);
    assert_ne!(fixed.next_u64(), 0);
    assert_eq!(fixed.random_between_ms(7, 7), 7);
}

#[test]
fn driver_seed_mixes_time_and_identity() {
    let expected = 3u64.rotate_left(13)
        ^ 5u64.wrapping_mul(0x9E37_79B9_7F4A_7C15)
        ^ 7u64.wrapping_mul(0xBF58_476D_1CE4_E5B9);
    assert_eq!(driver_seed(3, 5, 7), expected);
}

#[test]
fn deadlines_are_drawn_within_their_bounds() {
    let cfg = test_cfg();
    let mut rng = XorShift64::new(9);
    for now in [0u64, 500, 1_000_000] {
        let d = next_election_deadline(now, &cfg, &mut rng);
        assert!(d >= now + cfg.election_min_ms && d <= now + cfg.election_max_ms);
    }
}

#[test]
fn candidate_needs_a_quorum_of_votes() {
    let cfg = PxElectionConfig { prevote_enabled: false, ..test_cfg() };
    let mut winner = group_of_three();
    winner.run_election_attempt(
        &cfg,
        &vec![],
        &vec![VoteEvent::Reply { peer_id: 2, vote: vote(1, true) }],
    );
    assert_eq!(winner.local_replica().role, PxLocalReplicaRole::Leader);
    assert_eq!(winner.proposing_term, 1);

    let mut loser = group_of_three();
    loser.run_election_attempt(
        &cfg,
        &vec![],
        &vec![
            VoteEvent::Reply { peer_id: 2, vote: vote(1, false) },
            VoteEvent::Unreachable { peer_id: 3 },
        ],
    );
    assert_ne!(loser.local_replica().role, PxLocalReplicaRole::Leader);
}

#[test]
fn candidate_gives_way_to_a_later_term() {
    let cfg = PxElectionConfig { prevote_enabled: false, ..test_cfg() };
    let mut group = group_of_three();
    group.run_election_attempt(
        &cfg,
        &vec![],
        &vec![VoteEvent::Reply { peer_id: 2, vote: vote(8, false) }],
    );
    assert_eq!(group.local_replica().role, PxLocalReplicaRole::Follower);
    assert_eq!(group.local_replica().current_term, 8);
}

#[test]
fn lost_prevote_keeps_the_term() {
    let cfg = PxElectionConfig { prevote_enabled: true, ..test_cfg() };
    let mut group = group_of_three();
    group.run_election_attempt(
        &cfg,
        &vec![VoteEvent::Unreachable { peer_id: 2 }, VoteEvent::Unreachable { peer_id: 3 }],
        &vec![],
    );
    assert_eq!(group.local_replica().current_term, 0);
    assert_ne!(group.local_replica().role, PxLocalReplicaRole::Leader);
}

#[test]
fn prevote_counts_the_replica_itself() {
    let group = group_of_three();
    match group.run_prevote_round(&vec![VoteEvent::Reply { peer_id: 3, vote: vote(0, true) }]) {
        PreVoteOutcome::Won { .. } => {}
        other => panic!("two of three would vote, got {other:?}"),
    }
}

#[test]
fn heartbeats_renew_the_lease_by_quorum_only() {
    let cfg = test_cfg();
    let ack = HeartbeatReply {
        term: 1,
        success: true,
        contiguous_chosen: 0,
        last_chosen_term: 0,
        contiguous_applied: 0,
        highest_seen_slot: 0,
        durable_snapshot_slot: 0,
    };
    let mut group = group_of_three();
    group.run_election_attempt(
        &PxElectionConfig { prevote_enabled: false, ..cfg },
        &vec![],
        &vec![VoteEvent::Reply { peer_id: 2, vote: vote(1, true) }],
    );
    let (term, _) = group.enter_leader_state(100);
    assert_eq!(
        group.run_heartbeat_round(&cfg, term, 100, &vec![(2, None), (3, None)], 120),
        HeartbeatOutcome::Continued
    );
    assert_eq!(group.local_replica().lease_read_until_ms, 0);
    assert_eq!(
        group.run_heartbeat_round(&cfg, term, 200, &vec![(2, Some(ack))], 220),
        HeartbeatOutcome::Continued
    );
    assert_eq!(
        group.local_replica().lease_read_until_ms,
        200 + cfg.lease_duration_ms - cfg.max_clock_skew_ms
    );
    let later = HeartbeatReply { term: 5, ..ack };
    assert_eq!(
        group.run_heartbeat_round(&cfg, term, 300, &vec![(3, Some(later))], 320),
        HeartbeatOutcome::SteppedDown { peer_term: 5 }
    );
    assert_eq!(group.local_replica().role, PxLocalReplicaRole::Follower);
    assert_eq!(group.local_replica().current_term, 5);
    assert_eq!(group.local_replica().lease_read_until_ms, 0);
    assert_eq!(
        group.on_leader_event(
            term,
            LeaderEvent::Heartbeat(HeartbeatOutcome::SteppedDown { peer_term: 5 })
        ),
        LeaderStep::Exit
    );
    assert_eq!(group.local_replica().current_term, 5);
    assert!(group.tenure_cancelled);
}

#[test]
fn silent_members_end_the_tenure() {
    let cfg = test_cfg();
    let mut group = lone_group(1, 1);
    group.run_election_attempt(&cfg, &vec![], &vec![]);
    let (term, _) = group.enter_leader_state(1_000);
    assert_eq!(
        group.run_leader_state(&cfg, term, false, 1_000 + cfg.lease_duration_ms - 1),
        LeaderStep::Wait
    );
    assert_eq!(
        group.run_leader_state(&cfg, term, false, 1_000 + cfg.lease_duration_ms),
        LeaderStep::Exit
    );
    assert_eq!(group.local_replica().role, PxLocalReplicaRole::Follower);
    assert!(group.tenure_cancelled);
}

#[test]
fn stepping_down_for_a_later_term_adopts_it() {
    let mut group = lone_group(1, 1);
    group.run_election_attempt(&test_cfg(), &vec![], &vec![]);
    group.step_down(1, StepDownReason::HigherTerm(12));
    assert_eq!(group.local_replica().current_term, 12);
    assert_eq!(group.local_replica().role, PxLocalReplicaRole::Follower);
}
