//! Admission of proposals.
//!
//! Permits are spread over several queues, each with the same window. A
//! proposal takes a permit from the next queue in turn and holds it for the
//! whole round. Where that queue has none left, the proposal is refused or
//! waits, as the policy says.

use crate::common::config::AdmissionPolicy;
use vstd::prelude::*;

verus! {

/// `a / b`, rounded up.
pub open spec fn ceil_div(a: nat, b: nat) -> nat {
    a / b + if a % b == 0 {
        0nat
    } else {
        1
    }
}

/// Permits that are free, over all queues.
pub open spec fn free_permits(s: Seq<usize>) -> nat
    decreases s.len(),
{
    if s.len() == 0 {
        0
    } else {
        free_permits(s.drop_last()) + s.last() as nat
    }
}

proof fn lemma_free_permits_bound(s: Seq<usize>, window: nat)
    requires
        forall|i: int| 0 <= i < s.len() ==> #[trigger] s[i] <= window,
    ensures
        free_permits(s) <= window * s.len(),
    decreases s.len(),
{
    if s.len() > 0 {
        lemma_free_permits_bound(s.drop_last(), window);
        assert(window * s.len() == window * (s.len() - 1) + window) by (nonlinear_arith)
            requires
                s.len() > 0,
        ;
    }
}

proof fn lemma_free_permits_update(s: Seq<usize>, q: int, v: usize)
    requires
        0 <= q < s.len(),
    ensures
        free_permits(s.update(q, v)) == free_permits(s) - s[q] + v,
    decreases s.len(),
{
    if q == s.len() - 1 {
        assert(s.update(q, v).drop_last() =~= s.drop_last());
    } else {
        lemma_free_permits_update(s.drop_last(), q, v);
        assert(s.update(q, v).drop_last() =~= s.drop_last().update(q, v));
    }
}

proof fn lemma_free_permits_constant(s: Seq<usize>, window: usize)
    requires
        forall|i: int| 0 <= i < s.len() ==> #[trigger] s[i] == window,
    ensures
        free_permits(s) == window * s.len(),
    decreases s.len(),
{
    if s.len() > 0 {
        lemma_free_permits_constant(s.drop_last(), window);
        assert(window * s.len() == window * (s.len() - 1) + window) by (nonlinear_arith)
            requires
                s.len() > 0,
        ;
    } else {
        assert(window * 0 == 0);
    }
}

/// What a proposal that asks for a permit gets.
#[derive(Clone, Copy, Debug, PartialEq, Eq, Structural)]
pub enum Admission {
    /// A permit of this queue.
    Granted { queue: usize },
    /// No permit: the proposal fails.
    Refused,
    /// No permit yet: the proposal waits for one of this queue.
    Waiting { queue: usize },
}

/// `after` is `before` after the next queue in turn was asked for a permit: the
/// queue gives one if it has one; otherwise the proposal waits where the policy
/// has it wait.
pub open spec fn asked(before: InflightAdmission, after: InflightAdmission) -> bool {
    let q = before.next_queue() as int;
    let granted = before.available@[q] > 0;
    let waits = !granted && before.policy is Queue;
    &&& after.available@ == if granted {
        before.available@.update(q, (before.available@[q] - 1) as usize)
    } else {
        before.available@
    }
    &&& after.spec_occupied() == before.spec_occupied() + if granted {
        1int
    } else {
        0
    }
    &&& after == (InflightAdmission {
        available: after.available,
        route_counter: before.route_counter.wrapping_add(1),
        waiting: if waits {
            before.waiting.wrapping_add(1)
        } else {
            before.waiting
        },
        total_enqueued: if waits {
            before.total_enqueued.wrapping_add(1)
        } else {
            before.total_enqueued
        },
        ..before
    })
}

/// `after` is `before` after `queue` gave a permit to a proposal that had waited
/// `wait_us` for it.
pub open spec fn waited_for(
    before: InflightAdmission,
    after: InflightAdmission,
    queue: usize,
    wait_us: u64,
) -> bool {
    &&& after.available@ == before.available@.update(
        queue as int,
        (before.available@[queue as int] - 1) as usize,
    )
    &&& after.spec_occupied() == before.spec_occupied() + 1
    &&& after == (InflightAdmission {
        available: after.available,
        waiting: before.waiting.wrapping_sub(1),
        total_wait_us: before.total_wait_us.wrapping_add(wait_us),
        ..before
    })
}

/// Admission gate of one group.
#[derive(Debug)]
pub struct InflightAdmission {
    /// Free permits of each queue.
    pub available: Vec<usize>,
    pub queue_count: usize,
    pub window_per_queue: usize,
    pub policy: AdmissionPolicy,
    pub route_counter: u64,
    /// Proposals that had to wait, so far.
    pub total_enqueued: u64,
    /// Time that proposals have waited, so far, in microseconds.
    pub total_wait_us: u64,
    /// Proposals that wait now.
    pub waiting: u64,
}

impl InflightAdmission {
    /// No queue has more free permits than its window, and all permits can be
    /// counted.
    pub open spec fn wf(&self) -> bool {
        &&& self.queue_count >= 1
        &&& self.available.len() == self.queue_count
        &&& forall|i: int|
            0 <= i < self.available.len() ==> #[trigger] self.available[i] <= self.window_per_queue
        &&& self.window_per_queue * self.queue_count <= usize::MAX
    }

    /// The queue whose turn it is.
    pub open spec fn next_queue(&self) -> usize {
        (self.route_counter as usize) % self.queue_count
    }

    /// The queue whose turn it is has a free permit.
    pub open spec fn grants_next(&self) -> bool {
        self.available@[self.next_queue() as int] > 0
    }

    /// Permits that are taken, over all queues.
    pub open spec fn spec_occupied(&self) -> int {
        self.window_per_queue * self.queue_count - free_permits(self.available@)
    }

    /// All permits of a gate of this size can be counted.
    pub open spec fn countable(max_inflight: usize, queue_count: usize) -> bool {
        let n = if queue_count == 0 {
            1
        } else {
            queue_count as int
        };
        ceil_div(max_inflight as nat, n as nat) * n <= usize::MAX
    }

    /// A gate for `max_inflight` proposals over `queue_count` queues, at least
    /// one. The window of a queue is rounded up.
    pub fn new(max_inflight: usize, queue_count: usize, policy: AdmissionPolicy) -> (a: Self)
        requires
            Self::countable(max_inflight, queue_count),
        ensures
            a.wf(),
            a.queue_count == if queue_count == 0 {
                1
            } else {
                queue_count
            },
            a.window_per_queue == ceil_div(max_inflight as nat, a.queue_count as nat),
            a.policy == policy,
            a.route_counter == 0,
            a.total_enqueued == 0,
            a.total_wait_us == 0,
            a.waiting == 0,
            a.spec_occupied() == 0,
    {
        let n: usize = if queue_count == 0 {
            1
        } else {
            queue_count
        };
        let q: usize = max_inflight / n;
        proof {
            assert(n == 1 ==> max_inflight % n == 0);
            assert(n > 1 ==> max_inflight / n < usize::MAX) by (nonlinear_arith)
                requires
                    n >= 1,
            ;
        }
        let per_queue: usize = if max_inflight % n == 0 {
            q
        } else {
            q + 1
        };
        let mut available: Vec<usize> = Vec::new();
        let mut i: usize = 0;
        while i < n
            invariant
                i <= n,
                available.len() == i,
                forall|k: int| 0 <= k < i ==> #[trigger] available[k] == per_queue,
            decreases n - i,
        {
            available.push(per_queue);
            i = i + 1;
        }
        proof {
            lemma_free_permits_constant(available@, per_queue);
        }
        InflightAdmission {
            available,
            queue_count: n,
            window_per_queue: per_queue,
            policy,
            route_counter: 0,
            total_enqueued: 0,
            total_wait_us: 0,
            waiting: 0,
        }
    }

    /// Permits over all queues.
    pub fn total_permits(&self) -> (n: usize)
        requires
            self.wf(),
        ensures
            n == self.window_per_queue * self.queue_count,
    {
        self.window_per_queue * self.queue_count
    }

    /// Permits that are taken, over all queues.
    pub fn occupied(&self) -> (n: u64)
        requires
            self.wf(),
        ensures
            n == self.spec_occupied(),
            0 <= self.spec_occupied() <= self.window_per_queue * self.queue_count,
    {
        let total: usize = self.total_permits();
        let mut free: usize = 0;
        let mut i: usize = 0;
        proof {
            assert(self.available@.take(0) =~= Seq::empty());
            lemma_free_permits_bound(self.available@, self.window_per_queue as nat);
        }
        while i < self.available.len()
            invariant
                i <= self.available.len(),
                self.wf(),
                free == free_permits(self.available@.take(i as int)),
                free_permits(self.available@) <= self.window_per_queue * self.queue_count,
            decreases self.available.len() - i,
        {
            proof {
                let s = self.available@;
                assert(s.take(i + 1).drop_last() =~= s.take(i as int));
                lemma_free_permits_prefix(s, i + 1);
            }
            free = free + self.available[i];
            i = i + 1;
        }
        proof {
            assert(self.available@.take(i as int) =~= self.available@);
        }
        (total - free) as u64
    }

    /// The queue of the next proposal, in turn.
    fn route(&mut self) -> (q: usize)
        requires
            old(self).wf(),
        ensures
            q == old(self).next_queue(),
            q < old(self).queue_count,
            *final(self) == (InflightAdmission {
                route_counter: old(self).route_counter.wrapping_add(1),
                ..*old(self)
            }),
    {
        let idx: u64 = self.route_counter;
        self.route_counter = idx.wrapping_add(1);
        (idx as usize) % self.queue_count
    }

    /// Ask for a permit of the next queue in turn.
    pub fn acquire_permit(&mut self) -> (r: Admission)
        requires
            old(self).wf(),
        ensures
            final(self).wf(),
            asked(*old(self), *final(self)),
            r == if old(self).grants_next() {
                Admission::Granted { queue: old(self).next_queue() }
            } else {
                match old(self).policy {
                    AdmissionPolicy::Reject => Admission::Refused,
                    AdmissionPolicy::Queue => Admission::Waiting { queue: old(self).next_queue() },
                }
            },
    {
        let q: usize = self.route();
        let free: usize = self.available[q];
        if free > 0 {
            proof {
                lemma_free_permits_update(self.available@, q as int, (free - 1) as usize);
            }
            self.available.set(q, free - 1);
            return Admission::Granted { queue: q };
        }
        match self.policy {
            AdmissionPolicy::Reject => Admission::Refused,
            AdmissionPolicy::Queue => {
                self.total_enqueued = self.total_enqueued.wrapping_add(1);
                self.waiting = self.waiting.wrapping_add(1);
                Admission::Waiting { queue: q }
            },
        }
    }

    /// Hand a free permit of `queue` to a proposal that waited `wait_us` for it.
    /// Returns whether there was one.
    pub fn grant_waiting(&mut self, queue: usize, wait_us: u64) -> (granted: bool)
        requires
            old(self).wf(),
            queue < old(self).queue_count,
        ensures
            final(self).wf(),
            granted == (old(self).available[queue as int] > 0),
            if granted {
                waited_for(*old(self), *final(self), queue, wait_us)
            } else {
                *final(self) == *old(self)
            },
    {
        let free: usize = self.available[queue];
        if free == 0 {
            return false;
        }
        proof {
            lemma_free_permits_update(self.available@, queue as int, (free - 1) as usize);
        }
        self.available.set(queue, free - 1);
        self.waiting = self.waiting.wrapping_sub(1);
        self.total_wait_us = self.total_wait_us.wrapping_add(wait_us);
        true
    }

    /// Give a permit back to the queue that it came from.
    pub fn release(&mut self, queue: usize)
        requires
            old(self).wf(),
            queue < old(self).queue_count,
            old(self).available[queue as int] < old(self).window_per_queue,
        ensures
            final(self).wf(),
            final(self).available@ == old(self).available@.update(
                queue as int,
                (old(self).available[queue as int] + 1) as usize,
            ),
            *final(self) == (InflightAdmission {
                available: final(self).available,
                ..*old(self)
            }),
            final(self).spec_occupied() == old(self).spec_occupied() - 1,
    {
        let free: usize = self.available[queue];
        proof {
            lemma_free_permits_update(self.available@, queue as int, (free + 1) as usize);
        }
        self.available.set(queue, free + 1);
    }
}

proof fn lemma_free_permits_prefix(s: Seq<usize>, i: int)
    requires
        0 <= i <= s.len(),
    ensures
        free_permits(s.take(i)) <= free_permits(s),
    decreases s.len() - i,
{
    if i == s.len() {
        assert(s.take(i) =~= s);
    } else {
        lemma_free_permits_prefix(s, i + 1);
        assert(s.take(i + 1).drop_last() =~= s.take(i));
    }
}

/// Giving a permit back undoes taking it: the queue has as many free permits
/// as before.
pub proof fn release_undoes_acquire(available: Seq<usize>, q: int)
    requires
        0 <= q < available.len(),
        available[q] > 0,
    ensures
        ({
            let taken = available.update(q, (available[q] - 1) as usize);
            taken.update(q, (taken[q] + 1) as usize) == available
        }),
{
    let taken = available.update(q, (available[q] - 1) as usize);
    assert(taken.update(q, (taken[q] + 1) as usize) =~= available);
}

/// A gate has room for what it was made for, and for less than one proposal
/// per queue beyond it.
pub proof fn gate_has_room_for_its_window(max_inflight: nat, queues: nat)
    requires
        queues > 0,
    ensures
        max_inflight <= ceil_div(max_inflight, queues) * queues < max_inflight + queues,
{
    let q = (max_inflight / queues) as int;
    let n = queues as int;
    assert(max_inflight == n * q + max_inflight % queues) by {
        vstd::arithmetic::div_mod::lemma_fundamental_div_mod(max_inflight as int, n);
    }
    assert((q + 1) * n == n * q + n) by (nonlinear_arith);
    assert(q * n == n * q) by (nonlinear_arith);
}

/// The queues take turns: the proposal after one that was routed to a queue
/// goes to the next one, and behind the last queue to the first.
pub proof fn queues_take_turns(before: InflightAdmission, after: InflightAdmission)
    requires
        before.wf(),
        asked(before, after),
        before.route_counter < usize::MAX,
        before.route_counter < u64::MAX,
    ensures
        0 <= before.next_queue() < before.queue_count,
        before.next_queue() + 1 < before.queue_count ==> after.next_queue() == before.next_queue()
            + 1,
        before.next_queue() + 1 == before.queue_count ==> after.next_queue() == 0,
{
    let c = before.route_counter as int;
    let n = before.queue_count as int;
    assert(before.next_queue() == c % n);
    assert(after.next_queue() == (c + 1) % n);
    vstd::arithmetic::div_mod::lemma_fundamental_div_mod(c, n);
    let q = c / n;
    let r = c % n;
    if r + 1 < n {
        assert(n * q == q * n) by (nonlinear_arith);
        vstd::arithmetic::div_mod::lemma_fundamental_div_mod_converse(c + 1, n, q, r + 1);
    } else {
        assert(c + 1 == n * (q + 1)) by (nonlinear_arith)
            requires
                c == n * q + r,
                r + 1 == n,
        ;
        assert(n * (q + 1) == (q + 1) * n) by (nonlinear_arith);
        vstd::arithmetic::div_mod::lemma_fundamental_div_mod_converse(c + 1, n, q + 1, 0);
    }
}

/// A permit is taken exactly if the queue in turn has one: then one more is
/// taken, and nobody starts to wait. Otherwise no permit moves, and the
/// proposal waits exactly where the policy has it wait.
pub proof fn permit_is_given_while_there_is_one(
    before: InflightAdmission,
    after: InflightAdmission,
)
    requires
        before.wf(),
        asked(before, after),
    ensures
        ({
            let q = before.next_queue() as int;
            if before.available@[q] > 0 {
                &&& after.available@[q] == before.available@[q] - 1
                &&& after.spec_occupied() == before.spec_occupied() + 1
                &&& after.waiting == before.waiting
                &&& after.total_enqueued == before.total_enqueued
            } else {
                &&& after.available@ == before.available@
                &&& after.spec_occupied() == before.spec_occupied()
                &&& before.policy is Reject ==> after.waiting == before.waiting
                    && after.total_enqueued == before.total_enqueued
                &&& before.policy is Queue ==> after.waiting == before.waiting.wrapping_add(1)
                    && after.total_enqueued == before.total_enqueued.wrapping_add(1)
            }
        }),
        forall|i: int|
            0 <= i < before.available.len() && i != before.next_queue()
                ==> #[trigger] after.available@[i] == before.available@[i],
{
}

/// No permit is taken exactly if every queue has its whole window free.
pub proof fn gate_is_empty_when_all_permits_are_free(a: InflightAdmission)
    requires
        a.wf(),
    ensures
        a.spec_occupied() >= 0,
        a.spec_occupied() == 0 <==> forall|i: int|
            0 <= i < a.available.len() ==> #[trigger] a.available@[i] == a.window_per_queue,
{
    lemma_free_permits_bound(a.available@, a.window_per_queue as nat);
    if forall|i: int| 0 <= i < a.available.len() ==> #[trigger] a.available@[i] == a.window_per_queue {
        lemma_free_permits_constant(a.available@, a.window_per_queue);
    } else {
        let i = choose|i: int|
            0 <= i < a.available.len() && #[trigger] a.available@[i] != a.window_per_queue;
        let more = a.available@.update(i, a.window_per_queue);
        lemma_free_permits_update(a.available@, i, a.window_per_queue);
        assert forall|k: int| 0 <= k < more.len() implies #[trigger] more[k]
            <= a.window_per_queue by {
            if k != i {
                assert(more[k] == a.available[k]);
            }
        }
        lemma_free_permits_bound(more, a.window_per_queue as nat);
        assert(a.available[i] <= a.window_per_queue);
    }
}

/// A proposal that waited takes one permit of its queue, waits no more, and has
/// its time counted; nothing else moves.
pub proof fn waiting_proposal_takes_a_permit(
    before: InflightAdmission,
    after: InflightAdmission,
    queue: usize,
    wait_us: u64,
)
    requires
        before.wf(),
        queue < before.queue_count,
        before.available@[queue as int] > 0,
        waited_for(before, after, queue, wait_us),
    ensures
        after.available@[queue as int] == before.available@[queue as int] - 1,
        after.spec_occupied() == before.spec_occupied() + 1,
        before.waiting > 0 ==> after.waiting == before.waiting - 1,
        before.total_wait_us + wait_us <= u64::MAX ==> after.total_wait_us == before.total_wait_us
            + wait_us,
        after.route_counter == before.route_counter,
        after.total_enqueued == before.total_enqueued,
        forall|i: int|
            0 <= i < before.available.len() && i != queue ==> #[trigger] after.available@[i]
                == before.available@[i],
{
}

} // verus!
