//! The order of keys: bytewise from the left, a proper prefix first.

use vstd::prelude::*;

verus! {

/// `a` comes before `b`.
pub open spec fn key_before(a: Seq<u8>, b: Seq<u8>) -> bool
    decreases a.len(),
{
    if b.len() == 0 {
        false
    } else if a.len() == 0 {
        true
    } else if a[0] != b[0] {
        a[0] < b[0]
    } else {
        key_before(a.drop_first(), b.drop_first())
    }
}

pub proof fn lemma_key_irreflexive(a: Seq<u8>)
    ensures
        !key_before(a, a),
    decreases a.len(),
{
    if a.len() > 0 {
        lemma_key_irreflexive(a.drop_first());
    }
}

pub proof fn lemma_key_transitive(a: Seq<u8>, b: Seq<u8>, c: Seq<u8>)
    requires
        key_before(a, b),
        key_before(b, c),
    ensures
        key_before(a, c),
    decreases a.len(),
{
    if a.len() > 0 && a[0] == b[0] && b[0] == c[0] {
        lemma_key_transitive(a.drop_first(), b.drop_first(), c.drop_first());
    }
}

pub proof fn lemma_key_total(a: Seq<u8>, b: Seq<u8>)
    ensures
        key_before(a, b) || key_before(b, a) || a == b,
    decreases a.len(),
{
    if a.len() > 0 && b.len() > 0 && a[0] == b[0] {
        lemma_key_total(a.drop_first(), b.drop_first());
        if a.drop_first() == b.drop_first() {
            assert(a =~= seq![a[0]] + a.drop_first());
            assert(b =~= seq![b[0]] + b.drop_first());
        }
    } else if a.len() == 0 && b.len() == 0 {
        assert(a =~= b);
    }
}

/// How two keys compare.
#[derive(Clone, Copy, Debug, PartialEq, Eq, Structural)]
pub enum KeyOrder {
    Before,
    Same,
    After,
}

/// How `a` compares with `b`.
pub fn order_keys(a: &[u8], b: &[u8]) -> (r: KeyOrder)
    ensures
        r is Before <==> key_before(a@, b@),
        r is Same <==> a@ == b@,
        r is After <==> key_before(b@, a@),
{
    let mut i: usize = 0;
    proof {
        assert(a@.skip(0) =~= a@);
        assert(b@.skip(0) =~= b@);
        lemma_key_irreflexive(a@);
    }
    while i < a.len() && i < b.len() && a[i] == b[i]
        invariant
            i <= a@.len(),
            i <= b@.len(),
            key_before(a@, b@) == key_before(a@.skip(i as int), b@.skip(i as int)),
            key_before(b@, a@) == key_before(b@.skip(i as int), a@.skip(i as int)),
            a@ == b@ <==> a@.skip(i as int) == b@.skip(i as int),
        decreases a@.len() - i,
    {
        proof {
            let sa = a@.skip(i as int);
            let sb = b@.skip(i as int);
            assert(sa.drop_first() =~= a@.skip(i + 1));
            assert(sb.drop_first() =~= b@.skip(i + 1));
            assert(sa =~= seq![sa[0]] + sa.drop_first());
            assert(sb =~= seq![sb[0]] + sb.drop_first());
        }
        i = i + 1;
    }
    let ghost sa = a@.skip(i as int);
    let ghost sb = b@.skip(i as int);
    if i >= a.len() {
        if i >= b.len() {
            proof {
                assert(sa =~= sb);
            }
            KeyOrder::Same
        } else {
            proof {
                assert(sa.len() != sb.len());
            }
            KeyOrder::Before
        }
    } else if i >= b.len() {
        proof {
            assert(sa.len() != sb.len());
        }
        KeyOrder::After
    } else if a[i] < b[i] {
        proof {
            assert(sa[0] != sb[0]);
        }
        KeyOrder::Before
    } else {
        proof {
            assert(sa[0] != sb[0]);
        }
        KeyOrder::After
    }
}

/// Whether `key` starts with `prefix`.
pub fn starts_with(key: &[u8], prefix: &[u8]) -> (r: bool)
    ensures
        r == prefix@.is_prefix_of(key@),
{
    if key.len() < prefix.len() {
        return false;
    }
    let mut i: usize = 0;
    while i < prefix.len()
        invariant
            i <= prefix@.len() <= key@.len(),
            forall|k: int| 0 <= k < i ==> key@[k] == prefix@[k],
        decreases prefix@.len() - i,
    {
        if key[i] != prefix[i] {
            proof {
                assert(key@.subrange(0, prefix@.len() as int)[i as int] != prefix@[i as int]);
            }
            return false;
        }
        i = i + 1;
    }
    proof {
        assert(key@.subrange(0, prefix@.len() as int) =~= prefix@);
    }
    true
}


/// Keys are ordered by their first difference: `a` comes before `b` exactly if
/// the two agree on some first bytes, and there `a` ends or has the lesser byte
/// while `b` goes on.
pub proof fn first_difference_orders_keys(a: Seq<u8>, b: Seq<u8>)
    ensures
        key_before(a, b) <==> exists|n: int|
            0 <= n <= a.len() && n < b.len() && #[trigger] a.take(n) == b.take(n) && (n == a.len()
                || a[n] < b[n]),
    decreases a.len(),
{
    if key_before(a, b) {
        if a.len() == 0 || a[0] != b[0] {
            assert(a.take(0) =~= b.take(0));
        } else {
            let ra = a.drop_first();
            let rb = b.drop_first();
            first_difference_orders_keys(ra, rb);
            let n = choose|n: int|
                0 <= n <= ra.len() && n < rb.len() && #[trigger] ra.take(n) == rb.take(n) && (n
                    == ra.len() || ra[n] < rb[n]);
            assert forall|i: int| 0 <= i < n + 1 implies #[trigger] a.take(n + 1)[i] == b.take(
                n + 1,
            )[i] by {
                if i > 0 {
                    assert(ra.take(n)[i - 1] == rb.take(n)[i - 1]);
                }
            }
            assert(a.take(n + 1) =~= b.take(n + 1));
        }
    }
    if exists|n: int|
        0 <= n <= a.len() && n < b.len() && #[trigger] a.take(n) == b.take(n) && (n == a.len()
            || a[n] < b[n]) {
        let n = choose|n: int|
            0 <= n <= a.len() && n < b.len() && #[trigger] a.take(n) == b.take(n) && (n == a.len()
                || a[n] < b[n]);
        if n > 0 {
            assert(a[0] == a.take(n)[0] && b[0] == b.take(n)[0]);
            let ra = a.drop_first();
            let rb = b.drop_first();
            assert forall|i: int| 0 <= i < n - 1 implies #[trigger] ra.take(n - 1)[i] == rb.take(
                n - 1,
            )[i] by {
                assert(a.take(n)[i + 1] == b.take(n)[i + 1]);
            }
            assert(ra.take(n - 1) =~= rb.take(n - 1));
            first_difference_orders_keys(ra, rb);
        }
    }
}

} // verus!
