//! Majorities of voting members, and why they protect a choice.

use vstd::prelude::*;
use vstd::set_lib::{lemma_len_subset, lemma_set_disjoint_lens};

verus! {

/// Members needed for a quorum among `voters` voting members.
pub open spec fn quorum_of(voters: nat) -> nat {
    voters / 2 + 1
}

/// Any two quorums of one group have a member in common.
pub proof fn quorums_intersect(voters: Set<u64>, a: Set<u64>, b: Set<u64>)
    requires
        voters.finite(),
        a.subset_of(voters),
        b.subset_of(voters),
        a.len() >= quorum_of(voters.len()),
        b.len() >= quorum_of(voters.len()),
    ensures
        exists|m: u64| a.contains(m) && b.contains(m),
{
    lemma_overlap(voters, a, b);
}

/// When one voting member joins or leaves, every quorum of the group before
/// the change has a member in common with every quorum of the group after it.
pub proof fn quorums_of_adjacent_memberships_intersect(
    before: Set<u64>,
    joined: u64,
    a: Set<u64>,
    b: Set<u64>,
)
    requires
        before.finite(),
        !before.contains(joined),
        a.subset_of(before),
        b.subset_of(before.insert(joined)),
        a.len() >= quorum_of(before.len()),
        b.len() >= quorum_of(before.insert(joined).len()),
    ensures
        exists|m: u64| a.contains(m) && b.contains(m),
{
    lemma_overlap(before.insert(joined), a, b);
}

/// Two memberships that differ by more than one member need not have
/// overlapping quorums: this is why the epochs of proposer and acceptor must
/// be equal, and not merely close.
pub proof fn quorums_of_distant_memberships_may_miss_each_other()
    ensures
        exists|before: Set<u64>, after: Set<u64>, a: Set<u64>, b: Set<u64>|
            {
                &&& before.finite() && after.finite()
                &&& a.subset_of(before) && a.len() >= quorum_of(before.len())
                &&& b.subset_of(after) && b.len() >= quorum_of(after.len())
                &&& #[trigger] before.subset_of(after)
                &&& #[trigger] a.disjoint(b)
            },
{
    let before: Set<u64> = set![1u64];
    let after: Set<u64> = set![1u64, 2u64, 3u64];
    let a: Set<u64> = set![1u64];
    let b: Set<u64> = set![2u64, 3u64];
    assert(before.len() == 1);
    assert(after.len() == 3);
    assert(b.len() == 2);
    assert(before.subset_of(after));
    assert(a.disjoint(b));
}

proof fn lemma_overlap(all: Set<u64>, a: Set<u64>, b: Set<u64>)
    requires
        all.finite(),
        a.subset_of(all),
        b.subset_of(all),
        a.len() + b.len() > all.len(),
    ensures
        exists|m: u64| a.contains(m) && b.contains(m),
{
    lemma_len_subset(a, all);
    lemma_len_subset(b, all);
    if forall|m: u64| !(a.contains(m) && b.contains(m)) {
        assert(a.disjoint(b));
        lemma_set_disjoint_lens(a, b);
        assert((a + b).subset_of(all));
        lemma_len_subset(a + b, all);
    }
}

/// A quorum is the least number of members that is more than half of them.
pub proof fn quorum_is_the_least_majority(voters: nat, n: nat)
    ensures
        n >= quorum_of(voters) <==> 2 * n > voters,
{
}

/// A group keeps a quorum when less than half of its voting members are lost.
pub proof fn minority_may_be_lost(voters: nat, lost: nat)
    ensures
        2 * lost < voters ==> voters - lost >= quorum_of(voters),
        2 * lost >= voters && lost <= voters ==> voters - lost < quorum_of(voters),
{
}

} // verus!
