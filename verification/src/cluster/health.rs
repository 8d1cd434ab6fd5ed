//! Health of the layers of a store.
//!
//! Each layer reports one of three states and may attach messages, which are
//! hints for operators and do not change the state. A parent takes the worst
//! state of its children and collects their messages.

use crate::common::text::{concat2, extend_prefixed, prefixed, texts};
use vstd::prelude::*;

verus! {

/// Three-state health classification.
#[derive(Clone, Copy, Debug, PartialEq, Eq, Structural)]
pub enum HealthStatus {
    /// The layer and all its children work normally.
    Healthy,
    /// The layer works with reduced redundancy or latency.
    Degraded,
    /// The layer cannot serve writes.
    Unhealthy,
}

impl HealthStatus {
    /// Severity, from `0` for the best.
    pub open spec fn rank(self) -> int {
        match self {
            HealthStatus::Healthy => 0,
            HealthStatus::Degraded => 1,
            HealthStatus::Unhealthy => 2,
        }
    }

    pub open spec fn name(self) -> Seq<char> {
        match self {
            HealthStatus::Healthy => "ok"@,
            HealthStatus::Degraded => "degraded"@,
            HealthStatus::Unhealthy => "unhealthy"@,
        }
    }

    /// The more severe of two states.
    pub open spec fn worst_of(a: Self, b: Self) -> Self {
        if a.rank() >= b.rank() {
            a
        } else {
            b
        }
    }

    /// Lowercase name used in JSON output.
    pub fn as_str(self) -> (s: &'static str)
        ensures
            s@ == self.name(),
    {
        match self {
            HealthStatus::Healthy => "ok",
            HealthStatus::Degraded => "degraded",
            HealthStatus::Unhealthy => "unhealthy",
        }
    }

    /// The more severe of two states.
    pub fn worst(a: Self, b: Self) -> (r: Self)
        ensures
            r == Self::worst_of(a, b),
    {
        match (a, b) {
            (HealthStatus::Unhealthy, _) => HealthStatus::Unhealthy,
            (_, HealthStatus::Unhealthy) => HealthStatus::Unhealthy,
            (HealthStatus::Degraded, _) => HealthStatus::Degraded,
            (_, HealthStatus::Degraded) => HealthStatus::Degraded,
            (HealthStatus::Healthy, HealthStatus::Healthy) => HealthStatus::Healthy,
        }
    }

    /// Whether a load balancer must take the layer out of service.
    pub fn is_unhealthy(self) -> (r: bool)
        ensures
            r == (self is Unhealthy),
    {
        matches!(self, HealthStatus::Unhealthy)
    }
}

/// Taking the worst is commutative, associative and idempotent, and `Healthy` is
/// its neutral element: the state of a layer does not depend on the order or
/// the grouping in which its children are merged.
pub proof fn worst_health_is_a_semilattice(a: HealthStatus, b: HealthStatus, c: HealthStatus)
    ensures
        HealthStatus::worst_of(a, b) == HealthStatus::worst_of(b, a),
        HealthStatus::worst_of(a, HealthStatus::worst_of(b, c)) == HealthStatus::worst_of(
            HealthStatus::worst_of(a, b),
            c,
        ),
        HealthStatus::worst_of(a, a) == a,
        HealthStatus::worst_of(a, HealthStatus::Healthy) == a,
{
}

/// Health of one layer.
#[derive(Debug)]
pub struct HealthReport {
    pub status: HealthStatus,
    pub messages: Vec<String>,
}

impl HealthReport {
    pub fn ok() -> (r: Self)
        ensures
            r.status is Healthy,
            r.messages@ == Seq::<String>::empty(),
    {
        HealthReport { status: HealthStatus::Healthy, messages: Vec::new() }
    }

    pub fn degraded(msg: String) -> (r: Self)
        ensures
            r.status is Degraded,
            r.messages@ == seq![msg],
    {
        HealthReport { status: HealthStatus::Degraded, messages: vec![msg] }
    }

    pub fn unhealthy(msg: String) -> (r: Self)
        ensures
            r.status is Unhealthy,
            r.messages@ == seq![msg],
    {
        HealthReport { status: HealthStatus::Unhealthy, messages: vec![msg] }
    }

    /// Add a message and leave the state as it is.
    pub fn note(&mut self, msg: String)
        ensures
            final(self).status == old(self).status,
            final(self).messages@ == old(self).messages@.push(msg),
    {
        self.messages.push(msg);
    }

    /// Merge a child's report: the state becomes the worse of the two, and the
    /// child's messages follow, each behind `prefix` and a colon.
    pub fn merge_child(&mut self, prefix: &str, child: HealthReport)
        ensures
            final(self).status == HealthStatus::worst_of(old(self).status, child.status),
            texts(final(self).messages@) == texts(old(self).messages@) + prefixed(
                prefix@ + ": "@,
                texts(child.messages@),
            ),
    {
        self.status = HealthStatus::worst(self.status, child.status);
        let label: String = concat2(prefix, ": ");
        extend_prefixed(&mut self.messages, label.as_str(), &child.messages);
    }
}

/// Of two states the worst is the more severe: unhealthy before degraded before
/// healthy.
pub proof fn unhealthy_state_is_worst(a: HealthStatus, b: HealthStatus)
    ensures
        a is Unhealthy || b is Unhealthy <==> HealthStatus::worst_of(a, b) is Unhealthy,
        a is Healthy && b is Healthy <==> HealthStatus::worst_of(a, b) is Healthy,
        HealthStatus::Healthy.rank() < HealthStatus::Degraded.rank()
            < HealthStatus::Unhealthy.rank(),
{
}

} // verus!
