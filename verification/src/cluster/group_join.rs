//! A new replica: taking over the state of a prior one, and joining from a
//! peer's snapshot.

use crate::cluster::group::PxGroup;
use crate::cluster::local_replica::PxLocalReplica;
use crate::cluster::watermarks::later;
use crate::common::text::concat2;
use crate::common::wire::put_bytes;
use crate::engine::mem_engine::InMemoryEngine;
use crate::engine::store_engine::{keys_sorted, Engine};
use vstd::prelude::*;

verus! {

// ── Joining from a snapshot ──────────────────────────────────────
/// An item of a snapshot stream.
#[derive(Debug)]
pub enum SnapshotItem {
    Header { term_at_slot: u64, membership_epoch: u64 },
    Data(Vec<u8>),
    Empty,
}

/// The data of all items, one behind the other.
pub open spec fn stream_data(items: Seq<SnapshotItem>) -> Seq<u8>
    decreases items.len(),
{
    if items.len() == 0 {
        Seq::empty()
    } else {
        match items.last() {
            SnapshotItem::Data(chunk) => stream_data(items.drop_last()) + chunk@,
            _ => stream_data(items.drop_last()),
        }
    }
}

/// Term and epoch of the last header among the items, if any.
pub open spec fn stream_header(items: Seq<SnapshotItem>) -> Option<(u64, u64)>
    decreases items.len(),
{
    if items.len() == 0 {
        None
    } else {
        match items.last() {
            SnapshotItem::Header { term_at_slot, membership_epoch } => Some(
                (term_at_slot, membership_epoch),
            ),
            _ => stream_header(items.drop_last()),
        }
    }
}

/// A snapshot put together from a stream.
#[derive(Debug)]
pub struct ReceivedSnapshot {
    pub term_at_slot: u64,
    pub membership_epoch: u64,
    pub bytes: Vec<u8>,
}

/// Put a snapshot together from the items of a stream. A stream without a
/// header is no snapshot.
pub fn receive_snapshot(items: &Vec<SnapshotItem>) -> (r: Result<ReceivedSnapshot, String>)
    ensures
        match (r, stream_header(items@)) {
            (Ok(s), Some((term, epoch))) => {
                &&& s.term_at_slot == term
                &&& s.membership_epoch == epoch
                &&& s.bytes@ == stream_data(items@)
            },
            (Err(e), None) => e@ == "snapshot join: stream ended without a header"@,
            _ => false,
        },
{
    let mut header: Option<(u64, u64)> = None;
    let mut bytes: Vec<u8> = Vec::new();
    let mut i: usize = 0;
    proof {
        assert(items@.take(0) =~= Seq::empty());
    }
    while i < items.len()
        invariant
            i <= items.len(),
            header == stream_header(items@.take(i as int)),
            bytes@ == stream_data(items@.take(i as int)),
        decreases items.len() - i,
    {
        proof {
            assert(items@.take(i + 1).drop_last() =~= items@.take(i as int));
            assert(items@.take(i + 1).last() == items@[i as int]);
        }
        match &items[i] {
            SnapshotItem::Header { term_at_slot, membership_epoch } => {
                header = Some((*term_at_slot, *membership_epoch));
            },
            SnapshotItem::Data(chunk) => {
                put_bytes(&mut bytes, chunk.as_slice());
            },
            SnapshotItem::Empty => {},
        }
        i = i + 1;
    }
    proof {
        assert(items@.take(i as int) =~= items@);
    }
    match header {
        Some((term_at_slot, membership_epoch)) => Ok(
            ReceivedSnapshot { term_at_slot, membership_epoch, bytes },
        ),
        None => Err("snapshot join: stream ended without a header".to_owned()),
    }
}

/// The error of a join whose snapshot the engine could not import.
pub open spec fn import_error(error: Seq<char>) -> Seq<char> {
    "snapshot join: engine import failed: "@ + error
}

impl PxGroup {
    /// Finish to join from a peer's snapshot. `imported` is what came of
    /// importing the snapshot's bytes: the slot that it stands at, and the
    /// engine that holds it. The learner then knows everything up to that slot
    /// as chosen, and the peer's epoch is taken over. Returns the slot.
    ///
    /// The replica must be new: nothing was learned yet.
    pub fn join_via_snapshot(
        &mut self,
        received: &ReceivedSnapshot,
        imported: Result<(u64, InMemoryEngine), String>,
    ) -> (r: Result<u64, String>)
        requires
            old(self).wf(),
            old(self).local_replica.learner.last_slot() == 0,
            imported matches Ok((_, engine)) ==> keys_sorted(engine.entries()),
        ensures
            final(self).wf(),
            match imported {
                Ok((at_slot, engine)) => {
                    let learner = final(self).local_replica.learner;
                    &&& r == Ok::<u64, String>(at_slot)
                    &&& joined_at(
                        *old(self),
                        *final(self),
                        at_slot,
                        received.term_at_slot,
                        received.membership_epoch,
                    )
                    &&& learner.entries() == engine.entries()
                    &&& forall|s: u64| #[trigger] learner.chosen(s) == (1 <= s <= at_slot)
                    &&& learner.frontier() == at_slot
                    &&& learner.last_slot() == at_slot
                    &&& learner.last_term() == received.term_at_slot
                    &&& learner.dedup() == old(self).local_replica.learner.dedup()
                    &&& *final(self) == (PxGroup {
                        membership_epoch: received.membership_epoch,
                        local_replica: PxLocalReplica {
                            learner,
                            ..old(self).local_replica
                        },
                        ..*old(self)
                    })
                },
                Err(error) => {
                    &&& r matches Err(msg) && msg@ == import_error(error@)
                    &&& *final(self) == *old(self)
                },
            },
    {
        match imported {
            Ok((at_slot, engine)) => {
                self.local_replica.learner.seed_resume_frontier(
                    engine,
                    at_slot,
                    received.term_at_slot,
                );
                self.membership_epoch = received.membership_epoch;
                Ok(at_slot)
            },
            Err(error) => Err(concat2("snapshot join: engine import failed: ", error.as_str())),
        }
    }

    /// Take over the local replica and the progress of `prior`, of which this
    /// group is a rebuild. The quorum is not counted anew: it stays right as long
    /// as the local replica has the vote that it had.
    pub fn inherit_local_state_from(&mut self, prior: PxGroup)
        requires
            old(self).wf(),
            prior.wf(),
        ensures
            inherits(*old(self), prior, *final(self)),
            prior.local_replica.voting == old(self).local_replica.voting ==> final(self).wf(),
    {
        if prior.next_slot > self.next_slot {
            self.next_slot = prior.next_slot;
        }
        self.proposing_term = prior.proposing_term;
        self.leader_read_ready = prior.leader_read_ready;
        self.group_safe_slot = prior.group_safe_slot;
        self.local_replica = PxLocalReplica::new_inheriting_election_state(prior.local_replica);
    }
}

/// `after` is `before` with the local replica and the progress of `prior`.
pub open spec fn inherits(before: PxGroup, prior: PxGroup, after: PxGroup) -> bool {
    after == (PxGroup {
        local_replica: PxLocalReplica {
            shutdown_started: false,
            admin_step_down: false,
            ..prior.local_replica
        },
        next_slot: later(before.next_slot, prior.next_slot),
        proposing_term: prior.proposing_term,
        leader_read_ready: prior.leader_read_ready,
        group_safe_slot: prior.group_safe_slot,
        ..before
    })
}

/// A rebuild that inherits from its prior keeps the log, the acceptor's
/// promises, the term and the vote, and gives out no slot that the prior gave
/// out. If the prior could propose, so can the rebuild.
pub proof fn rebuild_keeps_what_was_promised(before: PxGroup, prior: PxGroup, after: PxGroup)
    requires
        inherits(before, prior, after),
    ensures
        after.local_replica.acceptor == prior.local_replica.acceptor,
        after.local_replica.learner == prior.local_replica.learner,
        after.local_replica.current_term == prior.local_replica.current_term,
        after.local_replica.voted_for == prior.local_replica.voted_for,
        after.next_slot >= prior.next_slot,
        prior.may_propose() ==> after.may_propose(),
{
}

// ── Laws of snapshot streams ─────────────────────────────────────
/// How a snapshot is cut into items does not matter: the data of two streams,
/// one behind the other, is the data of the first and then of the second, and
/// an item that is no data adds none.
pub proof fn stream_pieces_concatenate(a: Seq<SnapshotItem>, b: Seq<SnapshotItem>)
    ensures
        stream_data(a + b) == stream_data(a) + stream_data(b),
    decreases b.len(),
{
    if b.len() == 0 {
        assert(a + b =~= a);
        assert(stream_data(a) + stream_data(b) =~= stream_data(a));
    } else {
        let front = b.drop_last();
        stream_pieces_concatenate(a, front);
        assert((a + b).drop_last() =~= a + front);
        assert((a + b).last() == b.last());
        assert(stream_data(a + b) =~= stream_data(a) + stream_data(b));
    }
}

/// A stream of one item has the bytes of that item, and none where the item is
/// no data.
pub proof fn single_item_is_its_data(item: SnapshotItem)
    ensures
        item matches SnapshotItem::Data(chunk) ==> stream_data(seq![item]) == chunk@,
        !(item is Data) ==> stream_data(seq![item]).len() == 0,
{
    reveal_with_fuel(stream_data, 2);
    assert(seq![item].drop_last() =~= Seq::<SnapshotItem>::empty());
    if let SnapshotItem::Data(chunk) = item {
        assert(Seq::<u8>::empty() + chunk@ =~= chunk@);
    }
}

/// The last header of a stream counts, and a stream has none exactly if none
/// of its items is one.
pub proof fn last_header_counts(items: Seq<SnapshotItem>)
    ensures
        match stream_header(items) {
            Some((term, epoch)) => exists|i: int|
                0 <= i < items.len() && (#[trigger] items[i] matches SnapshotItem::Header {
                    term_at_slot,
                    membership_epoch,
                } && term_at_slot == term && membership_epoch == epoch) && forall|j: int|
                    i < j < items.len() ==> !(#[trigger] items[j] is Header),
            None => forall|i: int| 0 <= i < items.len() ==> !(#[trigger] items[i] is Header),
        },
    decreases items.len(),
{
    if items.len() > 0 {
        let front = items.drop_last();
        assert(items[items.len() - 1] == items.last());
        assert forall|i: int| 0 <= i < front.len() implies front[i] == #[trigger] items[i] by {}
        if !(items.last() is Header) {
            last_header_counts(front);
            if let Some((term, epoch)) = stream_header(front) {
                let i = choose|i: int|
                    0 <= i < front.len() && (#[trigger] front[i] matches SnapshotItem::Header {
                        term_at_slot,
                        membership_epoch,
                    } && term_at_slot == term && membership_epoch == epoch) && forall|j: int|
                        i < j < front.len() ==> !(#[trigger] front[j] is Header);
                assert(items[i] == front[i]);
                assert forall|j: int| i < j < items.len() implies !(
                #[trigger] items[j] is Header) by {
                    if j < front.len() {
                        assert(front[j] == items[j]);
                    }
                }
            }
        }
    }
}

/// `after` is `before` once it has taken a snapshot over that stands at `at_slot`.
pub open spec fn joined_at(
    before: PxGroup,
    after: PxGroup,
    at_slot: u64,
    term_at_slot: u64,
    membership_epoch: u64,
) -> bool {
    let learner = after.local_replica.learner;
    &&& forall|s: u64| #[trigger] learner.chosen(s) == (1 <= s <= at_slot)
    &&& learner.frontier() == at_slot
    &&& learner.last_slot() == at_slot
    &&& learner.last_term() == term_at_slot
    &&& after == (PxGroup {
        membership_epoch,
        local_replica: PxLocalReplica { learner, ..before.local_replica },
        ..before
    })
}

/// A replica that joined from a snapshot knows every slot up to the snapshot's
/// as chosen and none above it, goes on right behind it, and is in the epoch of
/// the peer; what it promised and accepted stays.
pub proof fn joined_replica_goes_on_behind_the_snapshot(
    before: PxGroup,
    after: PxGroup,
    at_slot: u64,
    term_at_slot: u64,
    membership_epoch: u64,
    slot: u64,
)
    requires
        joined_at(before, after, at_slot, term_at_slot, membership_epoch),
    ensures
        0 < slot <= at_slot ==> after.local_replica.learner.chosen(slot),
        slot > at_slot ==> !after.local_replica.learner.chosen(slot),
        after.local_replica.learner.frontier() == at_slot,
        after.local_replica.learner.last_slot() == at_slot,
        after.local_replica.learner.last_term() == term_at_slot,
        after.membership_epoch == membership_epoch,
        after.local_replica.acceptor == before.local_replica.acceptor,
        after.local_replica.current_term == before.local_replica.current_term,
        after.remote_replicas == before.remote_replicas,
{
}

} // verus!
