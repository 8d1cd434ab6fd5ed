//! Background repair of holes in the log.
//!
//! A leader that knows of a chosen slot above a slot that it does not know to
//! be chosen runs both phases for the lowest such hole. The prepare phase picks
//! up a value that was accepted there before; where there is none, the hole is
//! filled with an empty entry.

use crate::cluster::group::PxGroup;
use crate::cluster::local_replica::PxLocalReplica;
use crate::cluster::phases::{AcceptAttempt, PrepareAttempt, PrepareAttemptView};
use crate::cluster::watermarks::later;
use crate::common::payload::{buffer_bytes, buffer_empty};
use crate::paxos::learner::learned;
use crate::paxos::roles::{DedupTag, PxLogEntry};
use bytes::Bytes;
use vstd::prelude::*;

verus! {

/// Outcome of one repair step.
#[derive(Clone, Copy, Debug, PartialEq, Eq, Structural)]
pub enum RepairOutcome {
    /// The hole at `slot` was filled.
    Filled { slot: u64 },
    /// There is no hole.
    NoGap,
    /// This replica does not lead.
    NotLeader,
    /// The hole could not be filled this time.
    Failed,
}

/// How a repair step starts.
#[derive(Debug)]
pub enum RepairStart {
    /// There is nothing to do.
    Finished(RepairOutcome),
    /// Run the prepare phase for `slot` with this payload and no lower bound on
    /// the round.
    Prepare { slot: u64, payload: Bytes },
}

/// `r` is how a repair step of `g` starts.
pub open spec fn repair_started(g: PxGroup, r: RepairStart) -> bool {
    let l = g.local_replica.learner;
    if !(g.local_replica.role is Leader) {
        r == RepairStart::Finished(RepairOutcome::NotLeader)
    } else if l.frontier() >= l.last_slot() {
        r == RepairStart::Finished(RepairOutcome::NoGap)
    } else {
        r matches RepairStart::Prepare { slot, payload } && slot == l.frontier() + 1
            && buffer_bytes(payload) == Seq::<u8>::empty()
    }
}

impl PxGroup {
    /// Look for the lowest hole in the log: the first slot that is not known
    /// to be chosen while a later one is.
    pub fn repair_once(&self) -> (r: RepairStart)
        requires
            self.wf(),
        ensures
            repair_started(*self, r),
            match r {
                RepairStart::Finished(o) => o == if !(self.local_replica.role is Leader) {
                    RepairOutcome::NotLeader
                } else {
                    RepairOutcome::NoGap
                },
                RepairStart::Prepare { .. } => self.local_replica.role is Leader,
            },
            r is Prepare <==> (self.local_replica.role is Leader
                && self.local_replica.learner.frontier() < self.local_replica.learner.last_slot()),
            r matches RepairStart::Prepare { slot, payload } ==> {
                &&& slot == self.local_replica.learner.frontier() + 1
                &&& buffer_bytes(payload) == Seq::<u8>::empty()
                &&& !self.local_replica.learner.chosen(slot)
                &&& forall|s: u64|
                    1 <= s < slot ==> #[trigger] self.local_replica.learner.chosen(s)
            },
    {
        if !self.local_replica.is_leader() {
            return RepairStart::Finished(RepairOutcome::NotLeader);
        }
        let contiguous: u64 = self.local_replica.contiguous_chosen();
        let highest: u64 = self.local_replica.last_chosen_slot();
        if contiguous >= highest {
            return RepairStart::Finished(RepairOutcome::NoGap);
        }
        proof {
            self.local_replica.learner.lemma_frontier();
        }
        RepairStart::Prepare { slot: contiguous + 1, payload: buffer_empty() }
    }

    /// Go on after the prepare phase: the entry to run the accept phase for,
    /// or none if the step failed.
    pub fn repair_prepared(&self, attempt: PrepareAttempt) -> (r: Option<PxLogEntry>)
        ensures
            match (attempt@, r) {
                (PrepareAttemptView::Proceed { entry, .. }, Some(e)) => e@ == entry,
                (PrepareAttemptView::Proceed { .. }, None) => false,
                (_, r) => r is None,
            },
    {
        match attempt {
            PrepareAttempt::Proceed { entry, .. } => Some(entry),
            _ => None,
        }
    }

    /// Finish after the accept phase: a chosen entry is learned.
    pub fn repair_accepted(&mut self, entry: &PxLogEntry, attempt: AcceptAttempt) -> (r:
        RepairOutcome)
        requires
            old(self).wf(),
            entry.slot > 0,
        ensures
            final(self).wf(),
            repair_finished(*old(self), *final(self), *entry, attempt is Chosen, r),
            match attempt {
                AcceptAttempt::Chosen => {
                    &&& r == (RepairOutcome::Filled { slot: entry.slot })
                    &&& learned(
                        old(self).local_replica.learner,
                        final(self).local_replica.learner,
                        *entry,
                        Seq::<DedupTag>::empty(),
                    )
                    &&& *final(self) == (PxGroup {
                        local_replica: PxLocalReplica {
                            learner: final(self).local_replica.learner,
                            highest_seen_slot: later(
                                old(self).local_replica.highest_seen_slot,
                                entry.slot,
                            ),
                            ..old(self).local_replica
                        },
                        ..*old(self)
                    })
                },
                _ => r == RepairOutcome::Failed && *final(self) == *old(self),
            },
    {
        match attempt {
            AcceptAttempt::Chosen => {
                let none: Vec<DedupTag> = Vec::new();
                self.local_replica.learn(entry, &none);
                RepairOutcome::Filled { slot: entry.slot }
            },
            _ => RepairOutcome::Failed,
        }
    }
}

/// Filling the lowest hole moves the contiguous frontier past it.
pub proof fn filling_the_lowest_hole_moves_the_frontier(
    before: crate::paxos::learner::PxLearner,
    after: crate::paxos::learner::PxLearner,
    entry: PxLogEntry,
)
    requires
        before.wf(),
        after.wf(),
        before.frontier() < before.last_slot(),
        entry.slot == before.frontier() + 1,
        learned(before, after, entry, Seq::<DedupTag>::empty()),
    ensures
        after.frontier() >= entry.slot,
{
    before.lemma_frontier();
    after.lemma_frontier();
    if after.frontier() < entry.slot {
        let next = (after.frontier() + 1) as u64;
        assert(before.chosen(next) || next == entry.slot);
        assert(after.chosen(next));
    }
}

/// A leader repairs the lowest hole of its log exactly if there is one: a slot
/// that is not known to be chosen below one that is. It proposes nothing of its
/// own there. A replica that does not lead repairs nothing.
pub proof fn lowest_hole_is_repaired(g: PxGroup, r: RepairStart, hole: u64, above: u64)
    requires
        g.wf(),
        repair_started(g, r),
        1 <= hole < above,
        g.local_replica.learner.chosen(above),
        !g.local_replica.learner.chosen(hole),
    ensures
        g.local_replica.role is Leader ==> (r matches RepairStart::Prepare { slot, payload } && {
            &&& slot <= hole
            &&& !g.local_replica.learner.chosen(slot)
            &&& forall|s: u64| 1 <= s < slot ==> #[trigger] g.local_replica.learner.chosen(s)
            &&& buffer_bytes(payload).len() == 0
        }),
        !(g.local_replica.role is Leader) ==> r == RepairStart::Finished(RepairOutcome::NotLeader),
{
    let l = g.local_replica.learner;
    l.lemma_frontier();
    if hole <= l.frontier() {
        assert(l.chosen(hole));
    }
}

/// A log without holes is left alone.
pub proof fn whole_log_needs_no_repair(g: PxGroup, r: RepairStart)
    requires
        g.wf(),
        repair_started(g, r),
        forall|s: u64|
            1 <= s <= g.local_replica.learner.last_slot()
                ==> #[trigger] g.local_replica.learner.chosen(s),
    ensures
        !(r is Prepare),
{
    let l = g.local_replica.learner;
    l.lemma_frontier();
    if l.frontier() < l.last_slot() {
        assert(l.chosen((l.frontier() + 1) as u64));
    }
}

/// `after` and `r` are what the end of an accept phase for a hole makes of
/// `before`.
pub open spec fn repair_finished(
    before: PxGroup,
    after: PxGroup,
    entry: PxLogEntry,
    chosen: bool,
    r: RepairOutcome,
) -> bool {
    if chosen {
        &&& r == (RepairOutcome::Filled { slot: entry.slot })
        &&& learned(
            before.local_replica.learner,
            after.local_replica.learner,
            entry,
            Seq::<DedupTag>::empty(),
        )
    } else {
        r == RepairOutcome::Failed && after == before
    }
}

/// A hole whose entry was chosen is a hole no longer, and is told to be filled;
/// one whose entry was not chosen is left as it was.
pub proof fn chosen_entry_fills_the_hole(
    before: PxGroup,
    after: PxGroup,
    entry: PxLogEntry,
    chosen: bool,
    r: RepairOutcome,
)
    requires
        repair_finished(before, after, entry, chosen, r),
    ensures
        chosen ==> after.local_replica.learner.chosen(entry.slot) && r == (RepairOutcome::Filled {
            slot: entry.slot,
        }),
        !chosen ==> after == before && r is Failed,
        chosen ==> forall|s: u64| #[trigger]
            before.local_replica.learner.chosen(s) ==> after.local_replica.learner.chosen(s),
{
}

} // verus!
