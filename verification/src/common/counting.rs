//! Counting the elements of a sequence that have a property.

use vstd::prelude::*;

verus! {

/// A set of positions whose elements all have the property has at most as many
/// elements as the sequence has with the property.
pub proof fn lemma_positions_counted<A>(s: Seq<A>, p: spec_fn(A) -> bool, who: Set<int>)
    requires
        who.finite(),
        forall|i: int| #[trigger] who.contains(i) ==> 0 <= i < s.len() && p(s[i]),
    ensures
        who.len() <= s.filter(p).len(),
    decreases s.len(),
{
    reveal(Seq::filter);
    if s.len() == 0 {
        assert(who =~= Set::empty());
    } else {
        let last = s.len() - 1;
        let front = who.remove(last);
        assert forall|i: int| #[trigger] front.contains(i) implies 0 <= i < s.drop_last().len() && p(
            s.drop_last()[i],
        ) by {
            assert(who.contains(i));
        }
        lemma_positions_counted(s.drop_last(), p, front);
        if !who.contains(last) {
            assert(front =~= who);
        }
    }
}

/// Elements from the front on: the first one counts if it has the property.
pub proof fn lemma_filter_from_front<A>(s: Seq<A>, p: spec_fn(A) -> bool)
    requires
        s.len() > 0,
    ensures
        s.filter(p).len() == s.drop_first().filter(p).len() + if p(s[0]) {
            1nat
        } else {
            0nat
        },
{
    reveal_with_fuel(Seq::<_>::filter, 2);
    assert(s =~= seq![s[0]] + s.drop_first());
    Seq::filter_distributes_over_add(seq![s[0]], s.drop_first(), p);
    assert(seq![s[0]].drop_last() =~= Seq::<A>::empty());
}

} // verus!
