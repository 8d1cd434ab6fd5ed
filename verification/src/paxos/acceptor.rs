//! The in-memory acceptor: one promise and one accepted entry per slot.

use crate::cluster::phases::PrepareReplyView;
use crate::paxos::roles::{
    ballots_are_totally_ordered, entry_opt_view, LogEntryView, PxAcceptReply, PxBallot, PxLogEntry, PxPrepareReply,
};
use std::collections::HashMap;
use vstd::prelude::*;

verus! {

broadcast use vstd::std_specs::hash::group_hash_axioms;

/// What an acceptor knows of one slot.
#[derive(Debug)]
pub struct SlotState {
    /// Highest ballot promised or accepted.
    pub promised: PxBallot,
    /// The entry accepted last, if any.
    pub accepted: Option<PxLogEntry>,
}

/// What an acceptor's state of one slot says.
pub struct SlotView {
    pub promised: Option<PxBallot>,
    pub accepted: Option<LogEntryView>,
}

impl SlotView {
    /// The slot may promise the ballot: it has promised no other, or a lower one.
    pub open spec fn promises(self, ballot: PxBallot) -> bool {
        self.promised matches Some(p) ==> ballot.above(p)
    }

    /// The slot after a phase-1 request.
    pub open spec fn prepared(self, ballot: PxBallot) -> SlotView {
        if self.promises(ballot) {
            SlotView { promised: Some(ballot), ..self }
        } else {
            self
        }
    }

    /// The slot may accept an entry of the ballot: it has promised no higher one.
    pub open spec fn takes(self, ballot: PxBallot) -> bool {
        self.promised matches Some(p) ==> !p.above(ballot)
    }

    /// The answer to a phase-1 request.
    pub open spec fn prepare_answer(self, slot: u64, ballot: PxBallot) -> PrepareReplyView {
        if self.promises(ballot) {
            PrepareReplyView::Promised { slot, accepted: self.accepted }
        } else {
            PrepareReplyView::Rejected { slot, current_promised: self.promised->0 }
        }
    }

    /// The answer to a phase-2 request.
    pub open spec fn accept_answer(self, slot: u64, ballot: PxBallot) -> PxAcceptReply {
        if self.takes(ballot) {
            PxAcceptReply::Accepted { slot, ballot }
        } else {
            PxAcceptReply::Rejected { slot, current_promised: self.promised->0 }
        }
    }

    /// The slot after a phase-2 request.
    pub open spec fn after_accept(self, entry: LogEntryView) -> SlotView {
        if self.takes(entry.ballot) {
            SlotView { promised: Some(entry.ballot), accepted: Some(entry) }
        } else {
            self
        }
    }
}

/// Acceptor state of all slots.
#[derive(Debug)]
pub struct PxAcceptor {
    slots: HashMap<u64, SlotState>,
}

impl PxAcceptor {
    /// The ballot promised at `slot`, if any.
    pub closed spec fn promised(&self, slot: u64) -> Option<PxBallot> {
        if self.slots@.contains_key(slot) {
            Some(self.slots@[slot].promised)
        } else {
            None
        }
    }

    /// The entry accepted at `slot`, if any.
    pub closed spec fn accepted(&self, slot: u64) -> Option<LogEntryView> {
        if self.slots@.contains_key(slot) {
            entry_opt_view(self.slots@[slot].accepted)
        } else {
            None
        }
    }

    /// What the acceptor's state of `slot` says.
    pub open spec fn slot(&self, slot: u64) -> SlotView {
        SlotView { promised: self.promised(slot), accepted: self.accepted(slot) }
    }

    /// An acceptor that has promised and accepted nothing.
    pub fn new() -> (a: Self)
        ensures
            forall|s: u64| #[trigger] a.promised(s) is None,
            forall|s: u64| #[trigger] a.accepted(s) is None,
    {
        PxAcceptor { slots: HashMap::new() }
    }

    /// Promise `ballot` at `slot`, unless that ballot or a higher one has been
    /// promised there.
    pub fn prepare(&mut self, slot: u64, ballot: PxBallot) -> (reply: PxPrepareReply)
        ensures
            match old(self).promised(slot) {
                Some(p) if !ballot.above(p) => {
                    &&& reply@ == (PrepareReplyView::Rejected { slot, current_promised: p })
                    &&& final(self).promised(slot) == Some(p)
                },
                _ => {
                    &&& reply@ == (PrepareReplyView::Promised {
                        slot,
                        accepted: old(self).accepted(slot),
                    })
                    &&& final(self).promised(slot) == Some(ballot)
                },
            },
            final(self).slot(slot) == old(self).slot(slot).prepared(ballot),
            reply@ == old(self).slot(slot).prepare_answer(slot, ballot),
            forall|s: u64| #[trigger] final(self).accepted(s) == old(self).accepted(s),
            forall|s: u64| s != slot ==> #[trigger] final(self).promised(s) == old(self).promised(s),
    {
        let accepted: Option<PxLogEntry> = match self.slots.get(&slot) {
            Some(state) => {
                if !ballot.is_above(&state.promised) {
                    return PxPrepareReply::Rejected { slot, current_promised: state.promised };
                }
                match &state.accepted {
                    Some(e) => Some(e.clone()),
                    None => None,
                }
            },
            None => None,
        };
        let report: Option<PxLogEntry> = match &accepted {
            Some(e) => Some(e.clone()),
            None => None,
        };
        self.slots.insert(slot, SlotState { promised: ballot, accepted });
        PxPrepareReply::Promised { slot, accepted: report }
    }

    /// Accept `entry`, unless a higher ballot has been promised at its slot.
    pub fn accept(&mut self, entry: &PxLogEntry) -> (reply: PxAcceptReply)
        ensures
            match old(self).promised(entry.slot) {
                Some(p) if p.above(entry.ballot) => {
                    &&& reply == (PxAcceptReply::Rejected { slot: entry.slot, current_promised: p })
                    &&& final(self).promised(entry.slot) == Some(p)
                    &&& final(self).accepted(entry.slot) == old(self).accepted(entry.slot)
                },
                _ => {
                    &&& reply == (PxAcceptReply::Accepted { slot: entry.slot, ballot: entry.ballot })
                    &&& final(self).promised(entry.slot) == Some(entry.ballot)
                    &&& final(self).accepted(entry.slot) == Some(entry@)
                },
            },
            final(self).slot(entry.slot) == old(self).slot(entry.slot).after_accept(entry@),
            reply == old(self).slot(entry.slot).accept_answer(entry.slot, entry.ballot),
            forall|s: u64|
                s != entry.slot ==> #[trigger] final(self).accepted(s) == old(self).accepted(s),
            forall|s: u64|
                s != entry.slot ==> #[trigger] final(self).promised(s) == old(self).promised(s),
    {
        if let Some(state) = self.slots.get(&entry.slot) {
            if state.promised.is_above(&entry.ballot) {
                return PxAcceptReply::Rejected {
                    slot: entry.slot,
                    current_promised: state.promised,
                };
            }
        }
        self.slots.insert(
            entry.slot,
            SlotState { promised: entry.ballot, accepted: Some(entry.clone()) },
        );
        PxAcceptReply::Accepted { slot: entry.slot, ballot: entry.ballot }
    }

    /// The ballot promised at `slot`, if any.
    pub fn promised_at(&self, slot: u64) -> (r: Option<PxBallot>)
        ensures
            r == self.promised(slot),
    {
        match self.slots.get(&slot) {
            Some(state) => Some(state.promised),
            None => None,
        }
    }

    /// The entry accepted at `slot`, if any.
    pub fn accepted_at(&self, slot: u64) -> (r: Option<PxLogEntry>)
        ensures
            entry_opt_view(r) == self.accepted(slot),
    {
        match self.slots.get(&slot) {
            Some(state) => match &state.accepted {
                Some(e) => Some(e.clone()),
                None => None,
            },
            None => None,
        }
    }
}

// ── Laws of an acceptor ──────────────────────────────────────────
/// A ballot above everything promised is promised, and an entry of a promised
/// ballot is accepted as long as no higher ballot came between. What was
/// accepted before stays reported until then.
pub proof fn promised_ballot_is_accepted(s: SlotView, ballot: PxBallot, entry: LogEntryView)
    requires
        s.promised matches Some(p) ==> ballot.above(p),
        entry.ballot == ballot,
    ensures
        s.prepared(ballot).promised == Some(ballot),
        s.prepared(ballot).accepted == s.accepted,
        s.prepared(ballot).after_accept(entry).accepted == Some(entry),
        s.prepared(ballot).after_accept(entry).promised == Some(ballot),
{
    ballots_are_totally_ordered(ballot, ballot, ballot);
}

/// A promise is kept: no ballot that is not above it is promised any more, and
/// no entry of a ballot below it is accepted. Both leave the slot as it is.
pub proof fn promise_shuts_out_lower_ballots(
    s: SlotView,
    promised: PxBallot,
    ballot: PxBallot,
    entry: LogEntryView,
)
    requires
        s.promised == Some(promised),
    ensures
        !ballot.above(promised) ==> s.prepared(ballot) == s,
        promised.above(entry.ballot) ==> s.after_accept(entry) == s,
{
}

/// An accepted entry is reported by every later promise, and only an entry
/// that is not of a lower ballot takes its place.
pub proof fn accepted_entry_is_reported(
    s: SlotView,
    entry: LogEntryView,
    ballot: PxBallot,
    other: LogEntryView,
)
    requires
        s.promised matches Some(p) ==> !p.above(entry.ballot),
    ensures
        s.after_accept(entry).accepted == Some(entry),
        s.after_accept(entry).prepared(ballot).accepted == Some(entry),
        s.after_accept(entry).after_accept(other).accepted == if entry.ballot.above(other.ballot) {
            Some(entry)
        } else {
            Some(other)
        },
{
}

/// An acceptor answers what it does: it says that it promised exactly if it now
/// holds that promise and did not before, and reports the entry that it had
/// accepted. Otherwise it names a promise that the ballot is not above, and
/// nothing changed.
pub proof fn promise_is_answered_truly(s: SlotView, slot: u64, ballot: PxBallot)
    ensures
        match s.prepare_answer(slot, ballot) {
            PrepareReplyView::Promised { slot: at, accepted } => {
                &&& at == slot
                &&& accepted == s.accepted
                &&& s.promised != Some(ballot)
                &&& s.prepared(ballot).promised == Some(ballot)
            },
            PrepareReplyView::Rejected { slot: at, current_promised } => {
                &&& at == slot
                &&& s.promised == Some(current_promised)
                &&& !ballot.above(current_promised)
                &&& s.prepared(ballot) == s
            },
            _ => false,
        },
        s.promised is None ==> s.prepare_answer(slot, ballot) is Promised,
        s.promised matches Some(p) ==> (s.prepare_answer(slot, ballot) is Promised
            <==> ballot.above(p)),
{
    ballots_are_totally_ordered(ballot, ballot, ballot);
}

/// An acceptor says that it accepted exactly if it did: the entry is then the
/// one that it reports. Otherwise it names a higher ballot that it promised,
/// and nothing changed.
pub proof fn acceptance_is_answered_truly(s: SlotView, entry: LogEntryView)
    ensures
        match s.accept_answer(entry.slot, entry.ballot) {
            PxAcceptReply::Accepted { slot, ballot } => {
                &&& slot == entry.slot
                &&& ballot == entry.ballot
                &&& s.after_accept(entry).accepted == Some(entry)
                &&& s.after_accept(entry).promised == Some(entry.ballot)
            },
            PxAcceptReply::Rejected { slot, current_promised } => {
                &&& slot == entry.slot
                &&& s.promised == Some(current_promised)
                &&& current_promised.above(entry.ballot)
                &&& s.after_accept(entry) == s
            },
            _ => false,
        },
        s.promised is None ==> s.accept_answer(entry.slot, entry.ballot) is Accepted,
        s.promised == Some(entry.ballot) ==> s.accept_answer(
            entry.slot,
            entry.ballot,
        ) is Accepted,
{
    ballots_are_totally_ordered(entry.ballot, entry.ballot, entry.ballot);
}

} // verus!
