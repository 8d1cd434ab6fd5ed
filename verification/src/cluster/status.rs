//! Hierarchical status of a store: severity, messages and counters per layer.

use crate::common::metrics::MetricsSnapshot;
use vstd::prelude::*;

verus! {

/// Severity of a layer's status.
#[derive(Clone, Copy, Debug, PartialEq, Eq, Structural)]
pub enum StatusLevel {
    Healthy,
    Degraded,
    Unhealthy,
}

impl StatusLevel {
    /// Severity, from `0` for the best.
    pub open spec fn rank(self) -> int {
        match self {
            StatusLevel::Healthy => 0,
            StatusLevel::Degraded => 1,
            StatusLevel::Unhealthy => 2,
        }
    }

    pub open spec fn name(self) -> Seq<char> {
        match self {
            StatusLevel::Healthy => "ok"@,
            StatusLevel::Degraded => "degraded"@,
            StatusLevel::Unhealthy => "unhealthy"@,
        }
    }

    /// The more severe of two levels.
    pub open spec fn worst_of(a: Self, b: Self) -> Self {
        if a.rank() >= b.rank() {
            a
        } else {
            b
        }
    }

    /// Lowercase name used in JSON output.
    pub fn as_str(self) -> (s: &'static str)
        ensures
            s@ == self.name(),
    {
        match self {
            StatusLevel::Healthy => "ok",
            StatusLevel::Degraded => "degraded",
            StatusLevel::Unhealthy => "unhealthy",
        }
    }

    /// The more severe of two levels.
    pub fn worst(a: Self, b: Self) -> (r: Self)
        ensures
            r == Self::worst_of(a, b),
    {
        match (a, b) {
            (StatusLevel::Unhealthy, _) => StatusLevel::Unhealthy,
            (_, StatusLevel::Unhealthy) => StatusLevel::Unhealthy,
            (StatusLevel::Degraded, _) => StatusLevel::Degraded,
            (_, StatusLevel::Degraded) => StatusLevel::Degraded,
            (StatusLevel::Healthy, StatusLevel::Healthy) => StatusLevel::Healthy,
        }
    }
}

/// Taking the worst is commutative, associative and idempotent, and `Healthy` is
/// its neutral element.
pub proof fn worst_status_is_a_semilattice(a: StatusLevel, b: StatusLevel, c: StatusLevel)
    ensures
        StatusLevel::worst_of(a, b) == StatusLevel::worst_of(b, a),
        StatusLevel::worst_of(a, StatusLevel::worst_of(b, c)) == StatusLevel::worst_of(
            StatusLevel::worst_of(a, b),
            c,
        ),
        StatusLevel::worst_of(a, a) == a,
        StatusLevel::worst_of(a, StatusLevel::Healthy) == a,
{
}

#[derive(Debug)]
pub struct StoreStatus {
    pub store_id: u64,
    pub listen_addr: Option<String>,
    pub status: StatusLevel,
    pub messages: Vec<String>,
    pub groups: Vec<GroupStatus>,
}

#[derive(Debug)]
pub struct GroupStatus {
    pub group_id: u64,
    pub leader_id: u64,
    pub local_replica_id: u64,
    pub force_classic: bool,
    pub status: StatusLevel,
    pub messages: Vec<String>,
    pub local_replica: ReplicaStatus,
    pub remotes: Vec<RemoteStatus>,
    pub inflight: Option<InflightStatus>,
}

#[derive(Debug)]
pub struct ReplicaStatus {
    pub id: u64,
    pub role: String,
    pub voting: bool,
    pub status: StatusLevel,
    pub messages: Vec<String>,
    pub kv_store: KvStoreStatus,
}

#[derive(Clone, Copy, Debug, PartialEq, Eq, Structural)]
pub struct KvStoreStatus {
    pub key_count: u64,
    /// Whether the engine works. A durable engine stops working for good at
    /// its first I/O fault.
    pub engine_healthy: bool,
    /// Counters of the tree engine, where it is the engine in use.
    pub crowtree_stats: Option<CrowtreeStatsView>,
}

/// Counters of the tree engine.
#[derive(Clone, Copy, Debug, PartialEq, Eq, Structural)]
pub struct CrowtreeStatsView {
    pub last_applied_slot: u64,
    pub contiguous_slot: u64,
    pub gc_watermark: u64,
    pub snapshot_pages_written: u64,
    pub snapshot_segments_written: u64,
    pub buffer_pool_hits: u64,
    pub buffer_pool_misses: u64,
    pub buffer_pool_evictions: u64,
    pub buffer_pool_writebacks: u64,
    pub buffer_pool_resident: u32,
    pub buffer_pool_dirty: u32,
    pub buffer_pool_used: u32,
    pub buffer_pool_num_frames: u32,
    pub mt_upsert_total: u64,
    pub mt_get_total: u64,
    pub mt_get_hit_total: u64,
    pub flush_drain_total: u64,
    pub flush_entries_total: u64,
    pub l1_get_total: u64,
    pub l1_get_hit_total: u64,
}

#[derive(Debug)]
pub struct RemoteStatus {
    pub id: u64,
    pub endpoint: String,
    pub voting: bool,
    pub status: StatusLevel,
    pub messages: Vec<String>,
    pub metrics: MetricsSnapshot,
}

/// Occupancy of a group's admission queues.
#[derive(Debug)]
pub struct InflightStatus {
    pub queue_count: usize,
    pub window_per_queue: usize,
    pub policy: String,
    pub occupied: u64,
    pub waiting: u64,
    pub total_enqueued: u64,
    pub total_wait_us: u64,
}

/// Of two levels the worst is the more severe: unhealthy before degraded before
/// healthy.
pub proof fn unhealthy_is_worst(a: StatusLevel, b: StatusLevel)
    ensures
        a is Unhealthy || b is Unhealthy <==> StatusLevel::worst_of(a, b) is Unhealthy,
        a is Healthy && b is Healthy <==> StatusLevel::worst_of(a, b) is Healthy,
        StatusLevel::Healthy.rank() < StatusLevel::Degraded.rank()
            < StatusLevel::Unhealthy.rank(),
{
}

} // verus!
