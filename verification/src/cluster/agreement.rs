//! Why two entries that are chosen at one slot carry the same value.
//!
//! The acceptors of a group at one slot, the promises and votes they have given,
//! and the values that were proposed make up a run. It moves on by phase-1
//! requests, by proposals that a prepare phase lets through, by phase-2 requests,
//! and by the proposals of the one replica that the slot was assigned to, which
//! needs no prepare phase for its lowest ballot.

use crate::cluster::phases::{
    accept_count, accept_outcome, adopted_entry, adopted_entry_has_highest_ballot, prepare_outcome,
    promise_count, AcceptAttempt, AcceptCast, PrepareAttemptView, PrepareCast, PrepareReplyView,
};
use crate::cluster::quorum::quorum_of;
use crate::paxos::acceptor::SlotView;
use crate::paxos::roles::{LogEntryView, PxAcceptReply, PxBallot};
use vstd::prelude::*;

verus! {

/// A promise that a member gave: the member, the ballot, and what the member
/// reported as accepted.
pub type Promise = (int, PxBallot, Option<LogEntryView>);

/// One slot of a group.
pub struct SlotRun {
    /// The ballot of the replica that the slot was assigned to, which may be
    /// proposed without a prepare phase.
    pub base: PxBallot,
    /// Voting rights of the members.
    pub voting: Seq<bool>,
    /// Acceptor states of the members.
    pub members: Seq<SlotView>,
    /// The values that each member ever accepted, by their ballots.
    pub votes: Seq<Map<PxBallot, Seq<u8>>>,
    /// All promises that were ever given.
    pub promises: Set<Promise>,
    /// The values that were ever proposed, by their ballots.
    pub proposals: Map<PxBallot, Seq<u8>>,
}

/// What may happen at a slot.
pub enum SlotStep {
    /// A member is asked for a promise.
    Prepare { member: int, ballot: PxBallot },
    /// The replica that the slot was assigned to proposes a value.
    ProposeBase { payload: Seq<u8> },
    /// A prepare phase for `entry` is decided by the replies `casts`.
    Propose { entry: LogEntryView, casts: Seq<PrepareCast> },
    /// A member is asked to accept an entry.
    Accept { member: int, entry: LogEntryView },
}

/// Number of voting members among the first `n` for which `p` holds.
pub open spec fn voters_with(voting: Seq<bool>, p: spec_fn(int) -> bool, n: int) -> nat
    decreases n,
{
    if n <= 0 {
        0
    } else {
        voters_with(voting, p, n - 1) + if voting[n - 1] && p(n - 1) {
            1nat
        } else {
            0
        }
    }
}

impl SlotRun {
    /// Number of voting members.
    pub open spec fn voters(self) -> nat {
        voters_with(self.voting, |m: int| true, self.voting.len() as int)
    }

    /// Voting members for which `p` holds make a quorum.
    pub open spec fn quorum_with(self, p: spec_fn(int) -> bool) -> bool {
        voters_with(self.voting, p, self.voting.len() as int) >= quorum_of(self.voters())
    }

    /// Member `m` accepted a value at `ballot`.
    pub open spec fn voted(self, m: int, ballot: PxBallot) -> bool {
        self.votes[m].contains_key(ballot)
    }

    /// A quorum accepted the value that was proposed at `ballot`.
    pub open spec fn chosen(self, ballot: PxBallot) -> bool {
        self.quorum_with(|m: int| self.voted(m, ballot))
    }

    /// Nothing has happened yet.
    pub open spec fn is_initial(self) -> bool {
        &&& self.base.round == 0
        &&& self.members.len() == self.voting.len()
        &&& self.votes.len() == self.voting.len()
        &&& forall|m: int|
            0 <= m < self.members.len() ==> (#[trigger] self.members[m]).promised is None
                && self.members[m].accepted is None
        &&& forall|m: int, b: PxBallot| 0 <= m < self.votes.len() ==> !(#[trigger] self.voted(m, b))
        &&& self.promises == Set::<Promise>::empty()
        &&& self.proposals == Map::<PxBallot, Seq<u8>>::empty()
    }

    /// The run moves from `self` to `next` by `step`.
    pub open spec fn moves(self, step: SlotStep, next: SlotRun) -> bool {
        match step {
            SlotStep::Prepare { member, ballot } => {
                let before = self.members[member];
                &&& 0 <= member < self.members.len()
                &&& next == (SlotRun {
                    members: self.members.update(member, before.prepared(ballot)),
                    promises: if before.promises(ballot) {
                        self.promises.insert((member, ballot, before.accepted))
                    } else {
                        self.promises
                    },
                    ..self
                })
            },
            SlotStep::ProposeBase { payload } => {
                &&& !self.proposals.contains_key(self.base)
                &&& next == (SlotRun {
                    proposals: self.proposals.insert(self.base, payload),
                    ..self
                })
            },
            SlotStep::Propose { entry, casts } => {
                &&& entry.ballot.round > 0
                &&& !self.proposals.contains_key(entry.ballot)
                &&& self.answered_by(entry.ballot, casts)
                &&& match prepare_outcome(entry, casts, quorum_of(self.voters())) {
                    PrepareAttemptView::Proceed { entry: proposed, .. } => next == (SlotRun {
                        proposals: self.proposals.insert(entry.ballot, proposed.payload),
                        ..self
                    }),
                    _ => next == self,
                }
            },
            SlotStep::Accept { member, entry } => {
                let before = self.members[member];
                &&& 0 <= member < self.members.len()
                &&& self.proposals.contains_key(entry.ballot)
                &&& self.proposals[entry.ballot] == entry.payload
                &&& next == (SlotRun {
                    members: self.members.update(member, before.after_accept(entry)),
                    votes: if before.takes(entry.ballot) {
                        self.votes.update(
                            member,
                            self.votes[member].insert(entry.ballot, entry.payload),
                        )
                    } else {
                        self.votes
                    },
                    ..self
                })
            },
        }
    }

    /// The replies are those of the members, and every promise among them was
    /// given.
    pub open spec fn answered_by(self, ballot: PxBallot, casts: Seq<PrepareCast>) -> bool {
        &&& casts.len() == self.members.len()
        &&& forall|m: int|
            0 <= m < casts.len() ==> (#[trigger] casts[m]).voting == self.voting[m]
                && self.reply_given(m, ballot, casts[m])
    }

    /// A promise in the reply of a member was given by it.
    pub open spec fn reply_given(self, m: int, ballot: PxBallot, cast: PrepareCast) -> bool {
        cast.reply matches Some(PrepareReplyView::Promised { accepted, .. })
            ==> self.promises.contains((m, ballot, accepted))
    }

    /// Member `m` accepted `value` at `ballot`, or may still accept at it.
    pub open spec fn may_count(self, m: int, ballot: PxBallot, value: Seq<u8>) -> bool {
        ||| self.voted(m, ballot) && self.votes[m][ballot] == value
        ||| self.members[m].takes(ballot)
    }

    /// `value` is chosen at `ballot`, or may still be.
    pub open spec fn choosable(self, ballot: PxBallot, value: Seq<u8>) -> bool {
        self.quorum_with(|m: int| self.may_count(m, ballot, value))
    }

    /// A ballot that may be proposed.
    pub open spec fn usable(self, ballot: PxBallot) -> bool {
        ballot.round > 0 || ballot == self.base
    }

    /// What a promise says of the votes of its member still holds.
    pub open spec fn promise_kept(self, p: Promise) -> bool {
        let (m, ballot, report) = p;
        &&& 0 <= m < self.members.len()
        &&& self.members[m].promised matches Some(b) && !ballot.above(b)
        &&& forall|c: PxBallot| #[trigger]
            self.voted(m, c) && ballot.above(c) ==> (report matches Some(e) && !c.above(e.ballot))
        &&& report matches Some(e) ==> {
            &&& self.voted(m, e.ballot)
            &&& self.votes[m][e.ballot] == e.payload
            &&& ballot.above(e.ballot)
        }
    }

    /// No value but the one proposed at `ballot` is or can still be chosen below
    /// it.
    pub open spec fn proposal_safe(self, ballot: PxBallot) -> bool {
        forall|c: PxBallot, w: Seq<u8>|
            #![trigger self.choosable(c, w)]
            ballot.above(c) && self.usable(c) && self.choosable(c, w) ==> w
                == self.proposals[ballot]
    }

    /// What holds in every state of a run.
    pub open spec fn safe(self) -> bool {
        &&& self.base.round == 0
        &&& self.members.len() == self.voting.len()
        &&& self.votes.len() == self.voting.len()
        &&& forall|m: int, b: PxBallot|
            0 <= m < self.votes.len() && #[trigger] self.voted(m, b) ==> self.vote_known(m, b)
        &&& forall|m: int|
            0 <= m < self.members.len() ==> (#[trigger] self.members[m].accepted matches Some(e)
                ==> self.voted(m, e.ballot) && self.votes[m][e.ballot] == e.payload)
        &&& forall|p: Promise| #[trigger] self.promises.contains(p) ==> self.promise_kept(p)
        &&& forall|b: PxBallot| #[trigger]
            self.proposals.contains_key(b) ==> self.usable(b) && self.proposal_safe(b)
    }

    /// A vote is for a proposal, and neither the promise nor the last accepted
    /// entry of its member is below it.
    pub open spec fn vote_known(self, m: int, b: PxBallot) -> bool {
        &&& self.proposals.contains_key(b)
        &&& self.proposals[b] == self.votes[m][b]
        &&& self.members[m].promised matches Some(p) && !b.above(p)
        &&& self.members[m].accepted matches Some(e) && !b.above(e.ballot)
    }
}

proof fn lemma_voters_monotone(
    voting: Seq<bool>,
    p: spec_fn(int) -> bool,
    q: spec_fn(int) -> bool,
    n: int,
)
    requires
        0 <= n <= voting.len(),
        forall|m: int| 0 <= m < n && #[trigger] voting[m] && p(m) ==> q(m),
    ensures
        voters_with(voting, p, n) <= voters_with(voting, q, n),
    decreases n,
{
    if n > 0 {
        lemma_voters_monotone(voting, p, q, n - 1);
        assert(voting[n - 1] && p(n - 1) ==> q(n - 1));
    }
}

proof fn lemma_voters_overlap(
    voting: Seq<bool>,
    p: spec_fn(int) -> bool,
    q: spec_fn(int) -> bool,
    n: int,
) -> (m: int)
    requires
        0 <= n <= voting.len(),
        voters_with(voting, p, n) + voters_with(voting, q, n) > voters_with(
            voting,
            |m: int| true,
            n,
        ),
    ensures
        0 <= m < n,
        voting[m],
        p(m),
        q(m),
    decreases n,
{
    if voting[n - 1] && p(n - 1) && q(n - 1) {
        n - 1
    } else {
        lemma_voters_overlap(voting, p, q, n - 1)
    }
}

/// Any two quorums of a slot's members have a voting member in common.
proof fn lemma_quorums_meet(s: SlotRun, p: spec_fn(int) -> bool, q: spec_fn(int) -> bool) -> (m: int)
    requires
        s.quorum_with(p),
        s.quorum_with(q),
    ensures
        0 <= m < s.voting.len(),
        s.voting[m],
        p(m),
        q(m),
{
    lemma_voters_overlap(s.voting, p, q, s.voting.len() as int)
}

/// What can be chosen after a step could be chosen before it.
proof fn lemma_choosable_shrinks(
    s: SlotRun,
    step: SlotStep,
    t: SlotRun,
    c: PxBallot,
    w: Seq<u8>,
)
    requires
        s.safe(),
        s.moves(step, t),
        t.choosable(c, w),
    ensures
        s.choosable(c, w),
{
    let p = |m: int| t.may_count(m, c, w);
    let q = |m: int| s.may_count(m, c, w);
    assert(t.voting == s.voting);
    assert forall|m: int| 0 <= m < s.voting.len() && #[trigger] s.voting[m] && p(m) implies q(m) by {
        match step {
            SlotStep::Accept { member, entry } => {
                if m == member && s.members[member].takes(entry.ballot) {
                    if c != entry.ballot {
                        assert(t.voted(m, c) == s.voted(m, c));
                    }
                }
            },
            _ => {},
        }
    }
    lemma_voters_monotone(s.voting, p, q, s.voting.len() as int);
}

proof fn lemma_promises_count(s: SlotRun, ballot: PxBallot, casts: Seq<PrepareCast>, n: int)
    requires
        s.answered_by(ballot, casts),
        0 <= n <= casts.len(),
        casts.len() == s.voting.len(),
    ensures
        promise_count(casts.take(n)) == voters_with(
            s.voting,
            |m: int| casts[m].reply matches Some(PrepareReplyView::Promised { .. }),
            n,
        ),
    decreases n,
{
    if n > 0 {
        lemma_promises_count(s, ballot, casts, n - 1);
        assert(casts.take(n).drop_last() =~= casts.take(n - 1));
        assert(casts.take(n).last() == casts[n - 1]);
    }
}

/// A proposal that a prepare phase lets through is safe.
proof fn lemma_prepared_proposal_is_safe(
    s: SlotRun,
    entry: LogEntryView,
    casts: Seq<PrepareCast>,
    t: SlotRun,
    c: PxBallot,
    w: Seq<u8>,
)
    requires
        s.safe(),
        s.moves(SlotStep::Propose { entry, casts }, t),
        prepare_outcome(entry, casts, quorum_of(s.voters())) is Proceed,
        entry.ballot.above(c),
        s.usable(c),
        s.choosable(c, w),
    ensures
        w == t.proposals[entry.ballot],
{
    let b = entry.ballot;
    let p = |m: int| casts[m].reply matches Some(PrepareReplyView::Promised { .. });
    let q = |m: int| s.may_count(m, c, w);
    lemma_promises_count(s, b, casts, casts.len() as int);
    assert(casts.take(casts.len() as int) =~= casts);
    let m = lemma_quorums_meet(s, p, q);
    assert(casts[m].voting == s.voting[m] && s.reply_given(m, b, casts[m]));
    let report = casts[m].accepted();
    let promise: Promise = (m, b, report);
    assert(s.promises.contains(promise));
    assert(s.promise_kept(promise));
    assert(!s.members[m].takes(c));
    assert(s.voted(m, c) && s.votes[m][c] == w);
    let e = report->0;
    assert(!c.above(e.ballot));
    adopted_entry_has_highest_ballot(casts);
    assert(casts[m].accepted() == Some(e));
    let top = adopted_entry(casts)->0;
    assert(!e.ballot.above(top.ballot));
    let k = choose|k: int| 0 <= k < casts.len() && #[trigger] casts[k].accepted() == Some(top);
    assert(casts[k].voting == s.voting[k] && s.reply_given(k, b, casts[k]));
    let top_promise: Promise = (k, b, Some(top));
    assert(s.promises.contains(top_promise));
    assert(s.promise_kept(top_promise));
    assert(s.voted(k, top.ballot));
    assert(s.vote_known(k, top.ballot));
    assert(t.proposals[b] == top.payload);
    assert(s.proposals[top.ballot] == top.payload);
    assert(s.vote_known(m, c));
    if top.ballot == c {
        assert(s.proposals[c] == w);
    } else {
        assert(top.ballot.above(c));
        assert(s.proposal_safe(top.ballot));
    }
}

proof fn lemma_step_keeps_promises(s: SlotRun, step: SlotStep, t: SlotRun, p: Promise)
    requires
        s.safe(),
        s.moves(step, t),
        t.promises.contains(p),
    ensures
        t.promise_kept(p),
{
    let (m, ballot, report) = p;
    if s.promises.contains(p) {
        assert(s.promise_kept(p));
        assert forall|c: PxBallot| #[trigger] t.voted(m, c) && ballot.above(c) implies (
        report matches Some(e) && !c.above(e.ballot)) by {
            if !s.voted(m, c) {
                match step {
                    SlotStep::Accept { member, entry } => {
                        assert(member == m && c == entry.ballot);
                        assert(s.members[m].takes(c));
                    },
                    _ => {},
                }
            }
        }
        if let Some(e) = report {
            assert(s.voted(m, e.ballot));
            match step {
                SlotStep::Accept { member, entry } => {
                    if member == m && e.ballot == entry.ballot {
                        assert(s.vote_known(m, e.ballot));
                    }
                },
                _ => {},
            }
            assert(t.voted(m, e.ballot));
        }
    } else {
        match step {
            SlotStep::Prepare { member, ballot: asked } => {
                let before = s.members[member];
                assert(p == (member, asked, before.accepted));
                assert forall|c: PxBallot| #[trigger] t.voted(m, c) && ballot.above(c) implies (
                report matches Some(e) && !c.above(e.ballot)) by {
                    assert(s.voted(m, c));
                    assert(s.vote_known(m, c));
                }
                if let Some(e) = report {
                    assert(before.accepted == Some(e));
                    assert(s.voted(m, e.ballot));
                    assert(s.vote_known(m, e.ballot));
                    assert(t.voted(m, e.ballot));
                }
            },
            _ => {},
        }
    }
}

/// Every step of a run keeps it safe.
proof fn lemma_step_keeps_safe(s: SlotRun, step: SlotStep, t: SlotRun)
    requires
        s.safe(),
        s.moves(step, t),
    ensures
        t.safe(),
{
    assert forall|m: int, b: PxBallot|
        0 <= m < t.votes.len() && #[trigger] t.voted(m, b) implies t.vote_known(m, b) by {
        if s.voted(m, b) {
            assert(s.vote_known(m, b));
        }
    }
    assert forall|m: int| 0 <= m < t.members.len() implies (
    #[trigger] t.members[m].accepted matches Some(e) ==> t.voted(m, e.ballot)
        && t.votes[m][e.ballot] == e.payload) by {
        if let Some(e) = t.members[m].accepted {
            if s.members[m].accepted == Some(e) {
                assert(s.voted(m, e.ballot));
                assert(s.vote_known(m, e.ballot));
            }
        }
    }
    assert forall|p: Promise| #[trigger] t.promises.contains(p) implies t.promise_kept(p) by {
        lemma_step_keeps_promises(s, step, t, p);
    }
    assert forall|b: PxBallot| #[trigger] t.proposals.contains_key(b) implies t.usable(b)
        && t.proposal_safe(b) by {
        if s.proposals.contains_key(b) {
            assert(s.proposal_safe(b));
            assert forall|c: PxBallot, w: Seq<u8>|
                #![trigger t.choosable(c, w)]
                b.above(c) && t.usable(c) && t.choosable(c, w) implies w == t.proposals[b] by {
                lemma_choosable_shrinks(s, step, t, c, w);
            }
        } else {
            assert forall|c: PxBallot, w: Seq<u8>|
                #![trigger t.choosable(c, w)]
                b.above(c) && t.usable(c) && t.choosable(c, w) implies w == t.proposals[b] by {
                lemma_choosable_shrinks(s, step, t, c, w);
                match step {
                    SlotStep::Propose { entry, casts } => {
                        lemma_prepared_proposal_is_safe(s, entry, casts, t, c, w);
                    },
                    _ => {},
                }
            }
        }
    }
}

/// A run: it begins with nothing, and every state follows from the one before by
/// a step.
pub open spec fn is_run(states: Seq<SlotRun>, steps: Seq<SlotStep>) -> bool {
    &&& states.len() == steps.len() + 1
    &&& states[0].is_initial()
    &&& forall|i: int| 0 <= i < steps.len() ==> #[trigger] states[i].moves(steps[i], states[i + 1])
}

proof fn lemma_run_is_safe(states: Seq<SlotRun>, steps: Seq<SlotStep>, i: int)
    requires
        is_run(states, steps),
        0 <= i < states.len(),
    ensures
        states[i].safe(),
    decreases i,
{
    if i > 0 {
        lemma_run_is_safe(states, steps, i - 1);
        assert(states[i - 1].moves(steps[i - 1], states[i - 1 + 1]));
        lemma_step_keeps_safe(states[i - 1], steps[i - 1], states[i]);
    }
}

// ── Laws of agreement ────────────────────────────────────────────
/// Whatever is chosen at a slot, at whichever ballots, by whichever proposers and
/// however often they try, is one value, as long as only the replica that the
/// slot was assigned to proposes there without a prepare phase, and only one
/// value.
pub proof fn chosen_values_agree(
    states: Seq<SlotRun>,
    steps: Seq<SlotStep>,
    i: int,
    a: PxBallot,
    b: PxBallot,
)
    requires
        is_run(states, steps),
        0 <= i < states.len(),
        states[i].chosen(a),
        states[i].chosen(b),
    ensures
        states[i].proposals.contains_key(a),
        states[i].proposals.contains_key(b),
        states[i].proposals[a] == states[i].proposals[b],
{
    let s = states[i];
    lemma_run_is_safe(states, steps, i);
    lemma_chosen_is_choosable(s, a);
    lemma_chosen_is_choosable(s, b);
    if a.above(b) {
        assert(s.proposal_safe(a));
    } else if b.above(a) {
        assert(s.proposal_safe(b));
    }
}

proof fn lemma_chosen_is_choosable(s: SlotRun, b: PxBallot)
    requires
        s.safe(),
        s.chosen(b),
    ensures
        s.proposals.contains_key(b),
        s.usable(b),
        s.choosable(b, s.proposals[b]),
{
    let p = |m: int| s.voted(m, b);
    let q = |m: int| s.may_count(m, b, s.proposals[b]);
    let m = lemma_quorums_meet(s, p, p);
    assert(s.vote_known(m, b));
    assert forall|m: int| 0 <= m < s.voting.len() && #[trigger] s.voting[m] && p(m) implies q(m) by {
        assert(s.voted(m, b));
        assert(s.vote_known(m, b));
    }
    lemma_voters_monotone(s.voting, p, q, s.voting.len() as int);
}

/// What is chosen stays chosen.
pub proof fn chosen_values_stay_chosen(
    states: Seq<SlotRun>,
    steps: Seq<SlotStep>,
    i: int,
    b: PxBallot,
)
    requires
        is_run(states, steps),
        0 <= i < steps.len(),
        states[i].chosen(b),
    ensures
        states[i + 1].chosen(b),
        states[i + 1].proposals[b] == states[i].proposals[b],
{
    let s = states[i];
    let t = states[i + 1];
    lemma_run_is_safe(states, steps, i);
    assert(s.moves(steps[i], t));
    let p = |m: int| s.voted(m, b);
    let q = |m: int| t.voted(m, b);
    assert forall|m: int| 0 <= m < s.voting.len() && #[trigger] s.voting[m] && p(m) implies q(m) by {
        assert(s.voted(m, b));
    }
    lemma_voters_monotone(s.voting, p, q, s.voting.len() as int);
    lemma_chosen_is_choosable(s, b);
}

/// An accept phase that reports its entry as chosen is right to: where its
/// acceptances are votes that members gave, a quorum accepted the entry.
pub proof fn reported_choice_is_a_choice(s: SlotRun, ballot: PxBallot, casts: Seq<AcceptCast>)
    requires
        casts.len() == s.voting.len(),
        forall|m: int|
            0 <= m < casts.len() ==> (#[trigger] casts[m]).voting == s.voting[m] && (
            casts[m].reply matches Some(PxAcceptReply::Accepted { .. }) ==> s.voted(m, ballot)),
        accept_outcome(casts, quorum_of(s.voters())) == AcceptAttempt::Chosen,
    ensures
        s.chosen(ballot),
{
    let p = |m: int| casts[m].reply matches Some(PxAcceptReply::Accepted { .. });
    let q = |m: int| s.voted(m, ballot);
    lemma_acceptances_count(s.voting, casts, casts.len() as int);
    assert(casts.take(casts.len() as int) =~= casts);
    assert forall|m: int| 0 <= m < s.voting.len() && #[trigger] s.voting[m] && p(m) implies q(m) by {
        assert(casts[m].voting == s.voting[m]);
    }
    lemma_voters_monotone(s.voting, p, q, s.voting.len() as int);
}

proof fn lemma_acceptances_count(voting: Seq<bool>, casts: Seq<AcceptCast>, n: int)
    requires
        casts.len() == voting.len(),
        0 <= n <= casts.len(),
        forall|m: int| 0 <= m < casts.len() ==> (#[trigger] casts[m]).voting == voting[m],
    ensures
        accept_count(casts.take(n)) == voters_with(
            voting,
            |m: int| casts[m].reply matches Some(PxAcceptReply::Accepted { .. }),
            n,
        ),
    decreases n,
{
    if n > 0 {
        lemma_acceptances_count(voting, casts, n - 1);
        assert(casts.take(n).drop_last() =~= casts.take(n - 1));
        assert(casts.take(n).last() == casts[n - 1]);
    }
}

} // verus!
