//! A peer replica as its group sees it: identity, request numbering, call
//! counters, and the translation between replies on the wire and Paxos replies.

use crate::cluster::phases::PrepareReplyView;
use crate::cluster::replica::{
    HeartbeatRequestPayload, PxReplicaError, Replica, StepDownRequestPayload, VoteRequestPayload,
};
use crate::cluster::shutdown::ShutdownReport;
use crate::cluster::status::{RemoteStatus, StatusLevel};
use crate::common::config::PxElectionConfig;
use crate::common::metrics::{LayerMetrics, MetricsSnapshot};
use crate::common::payload::{buffer_bytes, buffer_clone};
use crate::common::text::{concat3, dec, decimal, texts};
use crate::paxos::roles::{
    DedupTag, LogEntryView, PxAcceptReply, PxBallot, PxLogEntry, PxPrepareReply,
};
use crate::paxos::PxNodeId;
use bytes::Bytes;
use vstd::prelude::*;
use vstd::string::*;

verus! {

/// Version of the peer protocol.
pub const PEER_PROTOCOL_VERSION: u32 = 1;

/// A phase-1 request on the wire.
#[derive(Clone, Copy, Debug, PartialEq, Eq, Structural)]
pub struct PrepareRequest {
    pub version: u32,
    pub slot: u64,
    pub round: u64,
    pub leader_id: u64,
    pub request_id: u64,
    pub request_create_ms: u64,
    pub group_id: u64,
    pub term: u64,
    pub membership_epoch: u64,
}

/// An accepted value on the wire.
#[derive(Debug)]
pub struct AcceptedValue {
    pub slot: u64,
    pub round: u64,
    pub leader_id: u64,
    pub term: u64,
    pub payload: Bytes,
}

/// A phase-1 response on the wire.
#[derive(Debug)]
pub struct PrepareResponse {
    pub slot: u64,
    pub term: u64,
    pub term_stale: bool,
    pub rejected: bool,
    pub rejected_round: u64,
    pub rejected_leader_id: u64,
    pub previously_accepted: Option<AcceptedValue>,
}

/// A phase-2 request on the wire.
#[derive(Debug)]
pub struct AcceptRequest {
    pub version: u32,
    pub slot: u64,
    pub round: u64,
    pub leader_id: u64,
    pub term: u64,
    pub value: AcceptedValue,
    pub request_id: u64,
    pub request_create_ms: u64,
    pub dedup_tags: Vec<DedupTag>,
    pub group_id: u64,
    pub membership_epoch: u64,
}

/// A phase-2 response on the wire.
#[derive(Clone, Copy, Debug, PartialEq, Eq, Structural)]
pub struct AcceptResponse {
    pub slot: u64,
    pub round: u64,
    pub leader_id: u64,
    pub term: u64,
    pub term_stale: bool,
    pub rejected: bool,
    pub rejected_round: u64,
    pub rejected_leader_id: u64,
}

/// A vote or pre-vote request on the wire.
#[derive(Clone, Copy, Debug, PartialEq, Eq, Structural)]
pub struct VoteRequest {
    pub version: u32,
    pub group_id: u64,
    pub term: u64,
    pub candidate_id: u64,
    pub accepted_log_tip_slot: u64,
    pub accepted_log_tip_term: u64,
    pub request_id: u64,
    pub request_create_ms: u64,
}

/// A heartbeat on the wire.
#[derive(Clone, Copy, Debug, PartialEq, Eq, Structural)]
pub struct HeartbeatRequest {
    pub version: u32,
    pub group_id: u64,
    pub payload: HeartbeatRequestPayload,
    pub request_id: u64,
    pub request_create_ms: u64,
}

/// A step-down request on the wire.
#[derive(Debug)]
pub struct StepDownRequest {
    pub version: u32,
    pub group_id: u64,
    pub term: u64,
    pub target_leader_id: u64,
    pub reason: String,
    pub request_id: u64,
    pub request_create_ms: u64,
}

/// A notice that a slot is chosen, on the wire.
#[derive(Clone, Copy, Debug, PartialEq, Eq, Structural)]
pub struct ChosenNotification {
    pub version: u32,
    pub group_id: u64,
    pub slot: u64,
    pub term: u64,
    pub leader_id: u64,
    pub request_id: u64,
    pub request_create_ms: u64,
}

impl AcceptedValue {
    /// The log entry that a value on the wire stands for.
    pub open spec fn entry(self) -> LogEntryView {
        LogEntryView {
            slot: self.slot,
            ballot: PxBallot { round: self.round, leader_id: self.leader_id },
            term: self.term,
            payload: buffer_bytes(self.payload),
        }
    }
}

/// The log entry that a value on the wire stands for.
pub fn accepted_value_to_log_entry(value: AcceptedValue) -> (e: PxLogEntry)
    ensures
        e@ == value.entry(),
{
    PxLogEntry {
        slot: value.slot,
        ballot: PxBallot::new(value.round, value.leader_id),
        term: value.term,
        payload: value.payload,
    }
}

impl PrepareResponse {
    /// What the response says: a later term before a rejection before a promise.
    pub open spec fn says(self) -> PrepareReplyView {
        if self.term_stale {
            PrepareReplyView::TermStale { slot: self.slot, new_term: self.term }
        } else if self.rejected {
            PrepareReplyView::Rejected {
                slot: self.slot,
                current_promised: PxBallot {
                    round: self.rejected_round,
                    leader_id: self.rejected_leader_id,
                },
            }
        } else {
            PrepareReplyView::Promised {
                slot: self.slot,
                accepted: match self.previously_accepted {
                    Some(v) => Some(v.entry()),
                    None => None,
                },
            }
        }
    }
}

impl AcceptResponse {
    /// What the response says: a later term before a rejection before an
    /// acceptance.
    pub open spec fn says(self) -> PxAcceptReply {
        if self.term_stale {
            PxAcceptReply::TermStale { slot: self.slot, new_term: self.term }
        } else if self.rejected {
            PxAcceptReply::Rejected {
                slot: self.slot,
                current_promised: PxBallot {
                    round: self.rejected_round,
                    leader_id: self.rejected_leader_id,
                },
            }
        } else {
            PxAcceptReply::Accepted {
                slot: self.slot,
                ballot: PxBallot { round: self.round, leader_id: self.leader_id },
            }
        }
    }
}

/// What a phase-1 response says.
pub fn prepare_reply(resp: PrepareResponse) -> (r: PxPrepareReply)
    ensures
        r@ == resp.says(),
{
    if resp.term_stale {
        PxPrepareReply::TermStale { slot: resp.slot, new_term: resp.term }
    } else if resp.rejected {
        PxPrepareReply::Rejected {
            slot: resp.slot,
            current_promised: PxBallot::new(resp.rejected_round, resp.rejected_leader_id),
        }
    } else {
        match resp.previously_accepted {
            Some(v) => PxPrepareReply::Promised {
                slot: resp.slot,
                accepted: Some(accepted_value_to_log_entry(v)),
            },
            None => PxPrepareReply::Promised { slot: resp.slot, accepted: None },
        }
    }
}

/// What a phase-2 response says.
pub fn accept_reply(resp: AcceptResponse) -> (r: PxAcceptReply)
    ensures
        r == resp.says(),
{
    if resp.term_stale {
        PxAcceptReply::TermStale { slot: resp.slot, new_term: resp.term }
    } else if resp.rejected {
        PxAcceptReply::Rejected {
            slot: resp.slot,
            current_promised: PxBallot::new(resp.rejected_round, resp.rejected_leader_id),
        }
    } else {
        PxAcceptReply::Accepted {
            slot: resp.slot,
            ballot: PxBallot::new(resp.round, resp.leader_id),
        }
    }
}

/// A transport failure, with its code kept in the text.
pub fn status_to_err(code: &str, message: &str) -> (e: PxReplicaError)
    ensures
        e matches PxReplicaError::Internal(s) && s@ == "grpc "@ + code@ + ": "@ + message@,
{
    let mut s: String = concat3("grpc ", code, ": ");
    s.append(message);
    PxReplicaError::Internal(s)
}

/// A peer in a group.
#[derive(Debug)]
pub struct PxRemoteReplica {
    pub node_id: PxNodeId,
    pub endpoint: String,
    pub voting: bool,
    /// Whether a channel to the peer has been set up.
    pub channel_open: bool,
    /// Frames that the peer's outbound stream buffers.
    pub stream_window_frames: usize,
    /// Number of the next request. `0` is kept for messages without an answer.
    pub next_request_id: u64,
    pub metrics: LayerMetrics,
    pub shutdown_started: bool,
}

impl Replica for PxRemoteReplica {
    open spec fn spec_id(&self) -> u64 {
        self.node_id
    }

    open spec fn spec_endpoint(&self) -> Option<Seq<char>> {
        Some(self.endpoint@)
    }

    open spec fn spec_voting(&self) -> bool {
        self.voting
    }

    fn id(&self) -> (r: u64) {
        self.node_id
    }

    fn endpoint(&self) -> (r: Option<&str>) {
        Some(self.endpoint.as_str())
    }

    fn voting(&self) -> (r: bool) {
        self.voting
    }
}

impl PxRemoteReplica {
    /// A voting peer that has not been contacted.
    pub open spec fn is_fresh(self, node_id: PxNodeId, endpoint: Seq<char>, voting: bool) -> bool {
        &&& self.node_id == node_id
        &&& self.endpoint@ == endpoint
        &&& self.voting == voting
        &&& !self.channel_open
        &&& self.stream_window_frames == 64
        &&& self.next_request_id == 1
        &&& self.metrics@ == (MetricsSnapshot { rpc_count: 0, err_count: 0, last_rtt_ms: 0 })
        &&& !self.shutdown_started
    }

    /// A voting peer that has not been contacted.
    pub fn new(node_id: PxNodeId, endpoint: String) -> (r: Self)
        ensures
            r.is_fresh(node_id, endpoint@, true),
            r.endpoint == endpoint,
    {
        PxRemoteReplica {
            node_id,
            endpoint,
            voting: true,
            channel_open: false,
            stream_window_frames: 64,
            next_request_id: 1,
            metrics: LayerMetrics::new(),
            shutdown_started: false,
        }
    }

    /// A voting peer whose outbound stream has the configured size.
    pub fn with_config(node_id: PxNodeId, endpoint: String, cfg: &PxElectionConfig) -> (r: Self)
        ensures
            r.node_id == node_id,
            r.endpoint == endpoint,
            r.voting,
            !r.channel_open,
            r.stream_window_frames == cfg.learner_stream_window_frames,
            r.next_request_id == 1,
            r.metrics@ == (MetricsSnapshot { rpc_count: 0, err_count: 0, last_rtt_ms: 0 }),
            !r.shutdown_started,
    {
        let mut r = Self::new(node_id, endpoint);
        r.stream_window_frames = cfg.learner_stream_window_frames;
        r
    }

    /// The same peer with the given voting right.
    pub fn with_voting(self, voting: bool) -> (r: Self)
        ensures
            r == (PxRemoteReplica { voting, ..self }),
    {
        let mut r = self;
        r.voting = voting;
        r
    }

    /// Take the next request number. It is never `0`.
    pub fn alloc_request_id(&mut self) -> (id: u64)
        ensures
            id != 0,
            id == if old(self).next_request_id == 0 {
                1
            } else {
                old(self).next_request_id
            },
            *final(self) == (PxRemoteReplica { next_request_id: id.wrapping_add(1), ..*old(self) }),
    {
        let id: u64 = self.next_request_id;
        if id == 0 {
            self.next_request_id = 2;
            1
        } else {
            self.next_request_id = id.wrapping_add(1);
            id
        }
    }

    /// The phase-1 request for `slot`.
    pub fn prepare_request(
        &self,
        slot: u64,
        ballot: PxBallot,
        term: u64,
        group_id: u64,
        membership_epoch: u64,
    ) -> (r: PrepareRequest)
        ensures
            r == (PrepareRequest {
                version: 1,
                slot,
                round: ballot.round,
                leader_id: ballot.leader_id,
                request_id: 0,
                request_create_ms: 0,
                group_id,
                term,
                membership_epoch,
            }),
    {
        PrepareRequest {
            version: PEER_PROTOCOL_VERSION,
            slot,
            round: ballot.round,
            leader_id: ballot.leader_id,
            request_id: 0,
            request_create_ms: 0,
            group_id,
            term,
            membership_epoch,
        }
    }

    /// The phase-2 request for `entry`, under a request number of its own.
    pub fn accept_request(
        &mut self,
        entry: &PxLogEntry,
        dedup_tags: Vec<DedupTag>,
        group_id: u64,
        membership_epoch: u64,
    ) -> (r: AcceptRequest)
        ensures
            r.version == 1,
            r.slot == entry.slot,
            r.round == entry.ballot.round,
            r.leader_id == entry.ballot.leader_id,
            r.term == entry.term,
            r.value.entry() == entry@,
            r.request_id == if old(self).next_request_id == 0 {
                1
            } else {
                old(self).next_request_id
            },
            r.request_create_ms == 0,
            r.dedup_tags == dedup_tags,
            r.group_id == group_id,
            r.membership_epoch == membership_epoch,
            *final(self) == (PxRemoteReplica {
                next_request_id: r.request_id.wrapping_add(1),
                ..*old(self)
            }),
    {
        let request_id: u64 = self.alloc_request_id();
        AcceptRequest {
            version: PEER_PROTOCOL_VERSION,
            slot: entry.slot,
            round: entry.ballot.round,
            leader_id: entry.ballot.leader_id,
            term: entry.term,
            value: AcceptedValue {
                slot: entry.slot,
                round: entry.ballot.round,
                leader_id: entry.ballot.leader_id,
                term: entry.term,
                payload: buffer_clone(&entry.payload),
            },
            request_id,
            request_create_ms: 0,
            dedup_tags,
            group_id,
            membership_epoch,
        }
    }

    /// A request for a vote or a pre-vote.
    pub fn vote_request(&self, req: VoteRequestPayload, group_id: u64) -> (r: VoteRequest)
        ensures
            r == (VoteRequest {
                version: 1,
                group_id,
                term: req.term,
                candidate_id: req.candidate_id,
                accepted_log_tip_slot: req.last_chosen_slot,
                accepted_log_tip_term: req.last_chosen_term,
                request_id: 0,
                request_create_ms: 0,
            }),
    {
        VoteRequest {
            version: PEER_PROTOCOL_VERSION,
            group_id,
            term: req.term,
            candidate_id: req.candidate_id,
            accepted_log_tip_slot: req.last_chosen_slot,
            accepted_log_tip_term: req.last_chosen_term,
            request_id: 0,
            request_create_ms: 0,
        }
    }

    /// A heartbeat, under a request number of its own.
    pub fn heartbeat_request(&mut self, req: HeartbeatRequestPayload, group_id: u64) -> (r:
        HeartbeatRequest)
        ensures
            r == (HeartbeatRequest {
                version: 1,
                group_id,
                payload: req,
                request_id: if old(self).next_request_id == 0 {
                    1
                } else {
                    old(self).next_request_id
                },
                request_create_ms: 0,
            }),
            *final(self) == (PxRemoteReplica {
                next_request_id: r.request_id.wrapping_add(1),
                ..*old(self)
            }),
    {
        let request_id: u64 = self.alloc_request_id();
        HeartbeatRequest {
            version: PEER_PROTOCOL_VERSION,
            group_id,
            payload: req,
            request_id,
            request_create_ms: 0,
        }
    }

    /// A request that the peer give up leadership.
    pub fn step_down_request(&self, req: &StepDownRequestPayload, group_id: u64) -> (r:
        StepDownRequest)
        ensures
            r.version == 1,
            r.group_id == group_id,
            r.term == req.term,
            r.target_leader_id == req.target_leader_id,
            r.reason@ == req.reason@,
            r.request_id == 0,
            r.request_create_ms == 0,
    {
        StepDownRequest {
            version: PEER_PROTOCOL_VERSION,
            group_id,
            term: req.term,
            target_leader_id: req.target_leader_id,
            reason: req.reason.clone(),
            request_id: 0,
            request_create_ms: 0,
        }
    }

    /// A notice that `slot` is chosen. It has no answer, so its number is `0`.
    pub fn chosen_notice(&self, slot: u64, term: u64, leader_id: PxNodeId, group_id: u64) -> (r:
        ChosenNotification)
        ensures
            r == (ChosenNotification {
                version: 1,
                group_id,
                slot,
                term,
                leader_id,
                request_id: 0,
                request_create_ms: 0,
            }),
    {
        ChosenNotification {
            version: PEER_PROTOCOL_VERSION,
            group_id,
            slot,
            term,
            leader_id,
            request_id: 0,
            request_create_ms: 0,
        }
    }

    /// The counters after a call: an answer counts with the time it took, a
    /// failure counts as one.
    pub open spec fn counted(self, ok: bool, rtt_ms: u64) -> MetricsSnapshot {
        if ok {
            MetricsSnapshot {
                rpc_count: self.metrics@.rpc_count.wrapping_add(1),
                last_rtt_ms: rtt_ms,
                ..self.metrics@
            }
        } else {
            MetricsSnapshot {
                err_count: self.metrics@.err_count.wrapping_add(1),
                ..self.metrics@
            }
        }
    }

    /// Count a call to the peer by its outcome.
    pub fn answered<T>(&mut self, outcome: Result<T, PxReplicaError>, rtt_ms: u64) -> (r: Result<
        T,
        PxReplicaError,
    >)
        ensures
            r == outcome,
            final(self).metrics@ == old(self).counted(outcome is Ok, rtt_ms),
            *final(self) == (PxRemoteReplica { metrics: final(self).metrics, ..*old(self) }),
    {
        match outcome {
            Ok(v) => {
                self.metrics.record_ok(rtt_ms);
                Ok(v)
            },
            Err(e) => {
                self.metrics.record_err();
                Err(e)
            },
        }
    }

    /// The reply to a phase-1 request, by what came back from the peer.
    pub fn prepare_answered(
        &mut self,
        outcome: Result<PrepareResponse, PxReplicaError>,
        rtt_ms: u64,
    ) -> (r: Result<PxPrepareReply, PxReplicaError>)
        ensures
            match (outcome, r) {
                (Ok(resp), Ok(reply)) => reply@ == resp.says(),
                (Err(a), Err(b)) => a == b,
                _ => false,
            },
            final(self).metrics@ == old(self).counted(outcome is Ok, rtt_ms),
            *final(self) == (PxRemoteReplica { metrics: final(self).metrics, ..*old(self) }),
    {
        match self.answered(outcome, rtt_ms) {
            Ok(resp) => Ok(prepare_reply(resp)),
            Err(e) => Err(e),
        }
    }

    /// The reply to a phase-2 request, by what came back from the peer.
    pub fn accept_answered(
        &mut self,
        outcome: Result<AcceptResponse, PxReplicaError>,
        rtt_ms: u64,
    ) -> (r: Result<PxAcceptReply, PxReplicaError>)
        ensures
            match (outcome, r) {
                (Ok(resp), Ok(reply)) => reply == resp.says(),
                (Err(a), Err(b)) => a == b,
                _ => false,
            },
            final(self).metrics@ == old(self).counted(outcome is Ok, rtt_ms),
            *final(self) == (PxRemoteReplica { metrics: final(self).metrics, ..*old(self) }),
    {
        match self.answered(outcome, rtt_ms) {
            Ok(resp) => Ok(accept_reply(resp)),
            Err(e) => Err(e),
        }
    }

    /// What a peer without a channel is reported with.
    pub open spec fn no_channel_message(self) -> Seq<char> {
        "remote "@ + dec(self.node_id as nat) + " ("@ + self.endpoint@
            + "): channel not yet established"@
    }

    /// `s` is the status of this peer: degraded until there is a channel to it.
    pub open spec fn reported_by(self, s: RemoteStatus) -> bool {
        &&& s.id == self.node_id
        &&& s.endpoint@ == self.endpoint@
        &&& s.voting == self.voting
        &&& s.metrics == self.metrics@
        &&& s.status == if self.channel_open {
            StatusLevel::Healthy
        } else {
            StatusLevel::Degraded
        }
        &&& texts(s.messages@) == if self.channel_open {
            Seq::<Seq<char>>::empty()
        } else {
            seq![self.no_channel_message()]
        }
    }

    /// Status of this peer.
    pub fn status(&self) -> (s: RemoteStatus)
        ensures
            self.reported_by(s),
    {
        let mut status = StatusLevel::Healthy;
        let mut messages: Vec<String> = Vec::new();
        proof {
            assert(texts(messages@) =~= Seq::empty());
        }
        if !self.channel_open {
            status = StatusLevel::Degraded;
            let id: String = decimal(self.node_id);
            let mut msg: String = concat3("remote ", id.as_str(), " (");
            msg.append(self.endpoint.as_str());
            msg.append("): channel not yet established");
            messages.push(msg);
            proof {
                assert(texts(messages@) =~= seq![self.no_channel_message()]);
            }
        }
        RemoteStatus {
            id: self.node_id,
            endpoint: self.endpoint.clone(),
            voting: self.voting,
            status,
            messages,
            metrics: self.metrics.snapshot(),
        }
    }

    /// Shut the peer down. The first call has the outbound stream stopped;
    /// later calls do nothing.
    pub fn shutdown(&mut self) -> (r: (ShutdownReport, bool))
        ensures
            r.0.errors@ == Seq::<String>::empty(),
            r.1 == !old(self).shutdown_started,
            *final(self) == (PxRemoteReplica { shutdown_started: true, ..*old(self) }),
    {
        let first = !self.shutdown_started;
        self.shutdown_started = true;
        (ShutdownReport::new(), first)
    }
}

/// A peer has promised where its answer tells of no later term and no rejection;
/// the promise carries the value that the peer accepted before. A rejection
/// carries the ballot that the peer had promised.
pub proof fn promise_of_a_peer_is_taken_for_one(resp: PrepareResponse)
    ensures
        resp.says() is Promised <==> !resp.term_stale && !resp.rejected,
        resp.says() is TermStale <==> resp.term_stale,
        resp.says() matches PrepareReplyView::TermStale { slot, new_term } ==> slot == resp.slot
            && new_term == resp.term,
        resp.says() matches PrepareReplyView::Rejected { slot, current_promised } ==> slot
            == resp.slot && current_promised.round == resp.rejected_round
            && current_promised.leader_id == resp.rejected_leader_id,
        resp.says() matches PrepareReplyView::Promised { slot, accepted } ==> {
            &&& slot == resp.slot
            &&& accepted is Some <==> resp.previously_accepted is Some
            &&& resp.previously_accepted matches Some(v) ==> {
                &&& accepted->Some_0.slot == v.slot
                &&& accepted->Some_0.ballot.round == v.round
                &&& accepted->Some_0.ballot.leader_id == v.leader_id
                &&& accepted->Some_0.term == v.term
                &&& accepted->Some_0.payload == buffer_bytes(v.payload)
            }
        },
{
}

/// A peer has accepted where its answer tells of no later term and no rejection.
/// A rejection carries the ballot that the peer had promised.
pub proof fn acceptance_of_a_peer_is_taken_for_one(resp: AcceptResponse)
    ensures
        resp.says() is Accepted <==> !resp.term_stale && !resp.rejected,
        resp.says() is TermStale <==> resp.term_stale,
        resp.says() matches PxAcceptReply::TermStale { slot, new_term } ==> slot == resp.slot
            && new_term == resp.term,
        resp.says() matches PxAcceptReply::Rejected { slot, current_promised } ==> slot
            == resp.slot && current_promised.round == resp.rejected_round
            && current_promised.leader_id == resp.rejected_leader_id,
        resp.says() matches PxAcceptReply::Accepted { slot, ballot } ==> slot == resp.slot
            && ballot.round == resp.round && ballot.leader_id == resp.leader_id,
{
}

/// A call that was answered counts as a call and leaves its time; one that
/// failed counts as an error. Neither touches the other count.
pub proof fn calls_are_counted_by_their_outcome(peer: PxRemoteReplica, rtt_ms: u64)
    requires
        peer.metrics@.rpc_count < u64::MAX,
        peer.metrics@.err_count < u64::MAX,
    ensures
        peer.counted(true, rtt_ms).rpc_count == peer.metrics@.rpc_count + 1,
        peer.counted(true, rtt_ms).err_count == peer.metrics@.err_count,
        peer.counted(true, rtt_ms).last_rtt_ms == rtt_ms,
        peer.counted(false, rtt_ms).rpc_count == peer.metrics@.rpc_count,
        peer.counted(false, rtt_ms).err_count == peer.metrics@.err_count + 1,
        peer.counted(false, rtt_ms).last_rtt_ms == peer.metrics@.last_rtt_ms,
{
}

/// A peer is healthy, with nothing to tell, where there is a channel to it, and
/// degraded with a message otherwise.
pub proof fn peer_without_a_channel_is_degraded(peer: PxRemoteReplica, s: RemoteStatus)
    requires
        peer.reported_by(s),
    ensures
        s.id == peer.node_id,
        peer.channel_open ==> s.status is Healthy && s.messages@.len() == 0,
        !peer.channel_open ==> s.status is Degraded && s.messages@.len() == 1,
{
    assert(texts(s.messages@).len() == s.messages@.len());
}

} // verus!
