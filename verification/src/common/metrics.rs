//! Counters of one layer's calls: how many succeeded, how many failed, and how
//! long the last successful one took. Names of the metrics of a group.

use crate::common::text::{concat2, concat3, dec, decimal};
use vstd::prelude::*;

verus! {

/// Counters of one layer. The counts wrap around at the end of their range.
#[derive(Debug)]
pub struct LayerMetrics {
    rpc_count: u64,
    err_count: u64,
    last_rtt_ms: u64,
}

impl View for LayerMetrics {
    type V = MetricsSnapshot;

    closed spec fn view(&self) -> MetricsSnapshot {
        MetricsSnapshot {
            rpc_count: self.rpc_count,
            err_count: self.err_count,
            last_rtt_ms: self.last_rtt_ms,
        }
    }
}

impl LayerMetrics {
    pub fn new() -> (m: Self)
        ensures
            m@ == (MetricsSnapshot { rpc_count: 0, err_count: 0, last_rtt_ms: 0 }),
    {
        LayerMetrics { rpc_count: 0, err_count: 0, last_rtt_ms: 0 }
    }

    /// Record a successful call and its latency.
    pub fn record_ok(&mut self, rtt_ms: u64)
        ensures
            final(self)@ == (MetricsSnapshot {
                rpc_count: old(self)@.rpc_count.wrapping_add(1),
                last_rtt_ms: rtt_ms,
                ..old(self)@
            }),
    {
        self.rpc_count = self.rpc_count.wrapping_add(1);
        self.last_rtt_ms = rtt_ms;
    }

    /// Record a failed call.
    pub fn record_err(&mut self)
        ensures
            final(self)@ == (MetricsSnapshot {
                err_count: old(self)@.err_count.wrapping_add(1),
                ..old(self)@
            }),
    {
        self.err_count = self.err_count.wrapping_add(1);
    }

    /// The counters as they are now.
    pub fn snapshot(&self) -> (s: MetricsSnapshot)
        ensures
            s == self@,
    {
        MetricsSnapshot {
            rpc_count: self.rpc_count,
            err_count: self.err_count,
            last_rtt_ms: self.last_rtt_ms,
        }
    }
}

/// A reading of [`LayerMetrics`]. `last_rtt_ms` is `0` until a call succeeds.
#[derive(Clone, Copy, Debug, PartialEq, Eq, Structural)]
pub struct MetricsSnapshot {
    pub rpc_count: u64,
    pub err_count: u64,
    pub last_rtt_ms: u64,
}

/// A store with one of its groups.
#[derive(Clone, Copy, Debug, PartialEq, Eq, Structural)]
pub struct GroupKey {
    pub store_id: u64,
    pub group_id: u64,
}

/// What the names of a group's metrics begin with.
pub open spec fn metric_prefix(key: GroupKey) -> Seq<char> {
    "s."@ + dec(key.store_id as nat) + ".g."@ + dec(key.group_id as nat)
}

impl GroupKey {
    /// What the names of the group's metrics begin with.
    pub fn prefix(self) -> (p: String)
        ensures
            p@ == metric_prefix(self),
    {
        let s: String = decimal(self.store_id);
        let g: String = decimal(self.group_id);
        let front: String = concat3("s.", s.as_str(), ".g.");
        concat2(front.as_str(), g.as_str())
    }
}

/// Names of the metrics of a group's reads.
#[derive(Debug)]
pub struct ReadRegistryHandles {
    pub lease_path: String,
    pub readindex_path: String,
    pub readindex_rounds: String,
    pub minslot_fallback: String,
    pub barrier: String,
    pub engine_get: String,
    pub apply_fence: String,
    pub lease_valid: String,
    pub contiguous_applied: String,
    pub safe_slot: String,
}

impl ReadRegistryHandles {
    /// Names of the metrics of one group's reads: counters end in `c`, summaries
    /// in `l`, gauges in `g`.
    pub fn register(key: GroupKey) -> (h: Self)
        ensures
            h.lease_path@ == metric_prefix(key) + ".read.lease_path.c"@,
            h.readindex_path@ == metric_prefix(key) + ".read.readindex_path.c"@,
            h.readindex_rounds@ == metric_prefix(key) + ".read.readindex_rounds.c"@,
            h.minslot_fallback@ == metric_prefix(key) + ".read.minslot_fallback.c"@,
            h.barrier@ == metric_prefix(key) + ".read.barrier.l"@,
            h.engine_get@ == metric_prefix(key) + ".read.engine_get.l"@,
            h.apply_fence@ == metric_prefix(key) + ".read.apply_fence.l"@,
            h.lease_valid@ == metric_prefix(key) + ".read.lease_valid.g"@,
            h.contiguous_applied@ == metric_prefix(key) + ".read.contiguous_applied.g"@,
            h.safe_slot@ == metric_prefix(key) + ".read.safe_slot.g"@,
    {
        let prefix: String = key.prefix();
        let p: &str = prefix.as_str();
        ReadRegistryHandles {
            lease_path: concat2(p, ".read.lease_path.c"),
            readindex_path: concat2(p, ".read.readindex_path.c"),
            readindex_rounds: concat2(p, ".read.readindex_rounds.c"),
            minslot_fallback: concat2(p, ".read.minslot_fallback.c"),
            barrier: concat2(p, ".read.barrier.l"),
            engine_get: concat2(p, ".read.engine_get.l"),
            apply_fence: concat2(p, ".read.apply_fence.l"),
            lease_valid: concat2(p, ".read.lease_valid.g"),
            contiguous_applied: concat2(p, ".read.contiguous_applied.g"),
            safe_slot: concat2(p, ".read.safe_slot.g"),
        }
    }
}

} // verus!
