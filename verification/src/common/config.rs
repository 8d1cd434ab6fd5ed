//! Configuration profiles: the Paxos retry budget, proposal admission, server
//! lifecycle, write-ahead log, and the election, heartbeat and lease timings.
//!
//! All times are in milliseconds unless a name says otherwise.

use vstd::prelude::*;

verus! {

/// Attempts at one slot before a proposal moves on to the next slot.
pub const MAX_PAXOS_RETRIES: usize = 3;

/// Slots that one proposal may try.
pub const MAX_SLOT_RETRIES: usize = 3;

/// First pause between two attempts; it doubles with every further attempt.
pub const RETRY_BASE_BACKOFF_MS: u64 = 5;

/// Proposals that a leader admits at once.
pub const PROPOSER_WINDOW: usize = 16;

/// I/O unit of block-aligned log media, in bytes.
pub const DEFAULT_IO_UNIT_BYTES: usize = 4096;

/// Paxos retry configuration.
#[derive(Clone, Copy, Debug, PartialEq, Eq, Structural)]
pub struct PaxosConfig {
    pub max_paxos_retries: usize,
    pub max_slot_retries: usize,
    pub retry_base_backoff_ms: u64,
    /// Proposals in flight that the leader admits at once. A proposal beyond
    /// it fails fast instead of waiting.
    pub proposer_window: usize,
}

impl Default for PaxosConfig {
    fn default() -> (c: Self)
        ensures
            c == (PaxosConfig {
                max_paxos_retries: 3,
                max_slot_retries: 3,
                retry_base_backoff_ms: 5,
                proposer_window: 16,
            }),
    {
        PaxosConfig {
            max_paxos_retries: MAX_PAXOS_RETRIES,
            max_slot_retries: MAX_SLOT_RETRIES,
            retry_base_backoff_ms: RETRY_BASE_BACKOFF_MS,
            proposer_window: PROPOSER_WINDOW,
        }
    }
}

/// What happens to a proposal that finds its admission queue full.
#[derive(Clone, Copy, Debug, PartialEq, Eq, Structural)]
pub enum AdmissionPolicy {
    /// It fails at once.
    Reject,
    /// It waits for a permit.
    Queue,
}

impl AdmissionPolicy {
    pub open spec fn spec_label(self) -> Seq<char> {
        match self {
            AdmissionPolicy::Reject => "reject"@,
            AdmissionPolicy::Queue => "queue"@,
        }
    }

    /// Lowercase name used in status output.
    pub fn label(self) -> (s: &'static str)
        ensures
            s@ == self.spec_label(),
    {
        match self {
            AdmissionPolicy::Reject => "reject",
            AdmissionPolicy::Queue => "queue",
        }
    }
}

/// Admission and coalescing of proposals.
#[derive(Clone, Copy, Debug, PartialEq, Eq, Structural)]
pub struct InflightConfig {
    /// Proposals in flight over all queues.
    pub max_inflight_proposals: usize,
    /// Number of admission queues.
    pub inflight_queues: usize,
    pub inflight_admission: AdmissionPolicy,
    /// How long single-key proposals are collected into one batch; `0` turns
    /// collecting off.
    pub coalesce_window_us: u64,
    /// Operations after which a batch is sent without waiting any longer.
    pub coalesce_max_keys: usize,
}

impl Default for InflightConfig {
    fn default() -> (c: Self)
        ensures
            c == (InflightConfig {
                max_inflight_proposals: 16,
                inflight_queues: 1,
                inflight_admission: AdmissionPolicy::Reject,
                coalesce_window_us: 0,
                coalesce_max_keys: 255,
            }),
    {
        InflightConfig {
            max_inflight_proposals: PROPOSER_WINDOW,
            inflight_queues: 1,
            inflight_admission: AdmissionPolicy::Reject,
            coalesce_window_us: 0,
            coalesce_max_keys: 255,
        }
    }
}

/// Server-level configuration.
#[derive(Clone, Copy, Debug, PartialEq, Eq, Structural)]
pub struct ServerConfig {
    /// Graceful-shutdown budget of one layer. What takes longer is stuck and
    /// is cleaned up by force.
    pub shutdown_timeout_ms: u64,
}

impl Default for ServerConfig {
    fn default() -> (c: Self)
        ensures
            c == (ServerConfig { shutdown_timeout_ms: 10_000 }),
    {
        ServerConfig { shutdown_timeout_ms: 10_000 }
    }
}

/// Alignment of log writes.
#[derive(Clone, Copy, Debug, PartialEq, Eq, Structural)]
pub enum WalBlockAlignment {
    Unaligned,
    Aligned { io_unit_bytes: usize },
}

/// Encoding of log records.
#[derive(Clone, Copy, Debug, PartialEq, Eq, Structural)]
pub enum WalRecordFormat {
    /// Binary frames on all backends.
    Auto,
    Binary,
    /// One line of text per record.
    TextLine,
}

/// Write-ahead log configuration of one consensus group.
#[derive(Debug)]
pub struct WalConfig {
    /// Directories that log segments are spread over.
    pub wal_disks: Vec<String>,
    /// Segment size in bytes at which the log rotates.
    pub wal_segment_size: u64,
    /// Batch size in bytes that triggers a durable flush.
    pub wal_flush_batch_bytes: usize,
    /// Time in microseconds that a flush may wait for company.
    pub wal_flush_coalesce_us: u64,
    /// Watchdog for stuck flush batches.
    pub wal_flush_watchdog_ms: u64,
    /// Disk usage in percent from which segments are collected eagerly.
    pub wal_disk_high_watermark_pct: u8,
    /// Seconds for which segments are kept at least.
    pub wal_min_retention_secs: u64,
    /// Seconds between two collection passes.
    pub gc_tick_secs: u64,
    /// Whether the backend writes whole blocks.
    pub wal_aligned: bool,
    /// Block size in bytes, used when `wal_aligned` is set.
    pub wal_io_unit_bytes: usize,
    pub wal_record_format: WalRecordFormat,
    /// Leave out the durable flush. Unsafe for production.
    pub wal_skip_fsync: bool,
}

impl WalConfig {
    /// Everything but the directories is at its default.
    pub open spec fn is_default_but_disks(self) -> bool {
        &&& self.wal_segment_size == 64 * 1024 * 1024
        &&& self.wal_flush_batch_bytes == 64 * 1024
        &&& self.wal_flush_coalesce_us == 0
        &&& self.wal_flush_watchdog_ms == 100
        &&& self.wal_disk_high_watermark_pct == 80
        &&& self.wal_min_retention_secs == 3600
        &&& self.gc_tick_secs == 30
        &&& !self.wal_aligned
        &&& self.wal_io_unit_bytes == 4096
        &&& self.wal_record_format == WalRecordFormat::Auto
        &&& !self.wal_skip_fsync
    }

    /// The default configuration with one log directory, `wal_root`.
    pub fn with_root(wal_root: String) -> (c: Self)
        ensures
            c.wal_disks@ == seq![wal_root],
            c.is_default_but_disks(),
    {
        WalConfig { wal_disks: vec![wal_root], ..Self::default() }
    }

    /// Use `wal_root` as the only log directory.
    pub fn set_root(&mut self, wal_root: String)
        ensures
            final(self).wal_disks@ == seq![wal_root],
            *final(self) == (WalConfig { wal_disks: final(self).wal_disks, ..*old(self) }),
    {
        self.wal_disks = vec![wal_root];
    }

    /// The write alignment that this configuration implies.
    pub fn alignment(&self) -> (a: WalBlockAlignment)
        ensures
            a == if self.wal_aligned {
                WalBlockAlignment::Aligned { io_unit_bytes: self.wal_io_unit_bytes }
            } else {
                WalBlockAlignment::Unaligned
            },
    {
        if self.wal_aligned {
            WalBlockAlignment::Aligned { io_unit_bytes: self.wal_io_unit_bytes }
        } else {
            WalBlockAlignment::Unaligned
        }
    }
}

impl Default for WalConfig {
    fn default() -> (c: Self)
        ensures
            c.wal_disks.len() == 1 && c.wal_disks[0]@ == "wal"@,
            c.is_default_but_disks(),
    {
        WalConfig {
            wal_disks: vec!["wal".to_owned()],
            wal_segment_size: 64 * 1024 * 1024,
            wal_flush_batch_bytes: 64 * 1024,
            wal_flush_coalesce_us: 0,
            wal_flush_watchdog_ms: 100,
            wal_disk_high_watermark_pct: 80,
            wal_min_retention_secs: 3600,
            gc_tick_secs: 30,
            wal_aligned: false,
            wal_io_unit_bytes: DEFAULT_IO_UNIT_BYTES,
            wal_record_format: WalRecordFormat::Auto,
            wal_skip_fsync: false,
        }
    }
}

/// Election, heartbeat and lease timings of one group.
#[derive(Clone, Copy, Debug, PartialEq, Eq, Structural)]
pub struct PxElectionConfig {
    /// Whether a pre-vote round precedes every election, so that a member that
    /// rejoins after a partition disrupts nobody.
    pub prevote_enabled: bool,
    /// Interval of the leader's heartbeats.
    pub heartbeat_interval_ms: u64,
    /// Lower bound of the randomized election deadline.
    pub election_min_ms: u64,
    /// Upper bound of the randomized election deadline.
    pub election_max_ms: u64,
    /// Lease that a heartbeat quorum grants.
    pub lease_duration_ms: u64,
    /// Largest clock skew in the cluster; taken off the leader's read lease.
    pub max_clock_skew_ms: u64,
    /// Slots that a new leader sweeps per batch.
    pub bulk_prepare_window: u64,
    /// Run no election driver.
    pub election_driver_disabled: bool,
    /// Frames that a peer's outbound stream buffers.
    pub learner_stream_window_frames: usize,
    /// Interval of the maintenance loop.
    pub maintenance_tick_ms: u64,
}

impl PxElectionConfig {
    /// Production timings for a single datacenter.
    pub open spec fn default_spec() -> Self {
        PxElectionConfig {
            prevote_enabled: true,
            heartbeat_interval_ms: 500,
            election_min_ms: 4000,
            election_max_ms: 8000,
            lease_duration_ms: 4500,
            max_clock_skew_ms: 500,
            bulk_prepare_window: 1024,
            election_driver_disabled: false,
            learner_stream_window_frames: 64,
            maintenance_tick_ms: 30_000,
        }
    }

    /// The randomized deadline has a range to be drawn from.
    pub open spec fn wf(self) -> bool {
        self.election_min_ms <= self.election_max_ms && self.election_max_ms - self.election_min_ms
            < u64::MAX
    }

    /// Aggressive timings for runs under simulated time.
    pub open spec fn tests_spec() -> Self {
        PxElectionConfig {
            prevote_enabled: true,
            heartbeat_interval_ms: 5,
            election_min_ms: 30,
            election_max_ms: 60,
            lease_duration_ms: 25,
            max_clock_skew_ms: 1,
            bulk_prepare_window: 1024,
            election_driver_disabled: false,
            learner_stream_window_frames: 64,
            maintenance_tick_ms: 20,
        }
    }

    /// Aggressive timings for runs under simulated time.
    pub fn for_tests() -> (c: Self)
        ensures
            c == Self::tests_spec(),
            c.wf(),
    {
        PxElectionConfig {
            prevote_enabled: true,
            heartbeat_interval_ms: 5,
            election_min_ms: 30,
            election_max_ms: 60,
            lease_duration_ms: 25,
            max_clock_skew_ms: 1,
            bulk_prepare_window: 1024,
            election_driver_disabled: false,
            learner_stream_window_frames: 64,
            maintenance_tick_ms: 20,
        }
    }

    /// Fast elections with a lease that survives scheduling jitter, for
    /// end-to-end runs in real time.
    pub fn for_e2e() -> (c: Self)
        ensures
            c == (PxElectionConfig {
                prevote_enabled: true,
                heartbeat_interval_ms: 200,
                election_min_ms: 200,
                election_max_ms: 400,
                lease_duration_ms: 600,
                max_clock_skew_ms: 100,
                bulk_prepare_window: 1024,
                election_driver_disabled: false,
                learner_stream_window_frames: 64,
                maintenance_tick_ms: 5_000,
            }),
            c.wf(),
    {
        PxElectionConfig {
            prevote_enabled: true,
            heartbeat_interval_ms: 200,
            election_min_ms: 200,
            election_max_ms: 400,
            lease_duration_ms: 600,
            max_clock_skew_ms: 100,
            bulk_prepare_window: 1024,
            election_driver_disabled: false,
            learner_stream_window_frames: 64,
            maintenance_tick_ms: 5_000,
        }
    }
}

impl Default for PxElectionConfig {
    /// Production timings for a single datacenter.
    fn default() -> (c: Self)
        ensures
            c == Self::default_spec(),
            c.wf(),
    {
        PxElectionConfig {
            prevote_enabled: true,
            heartbeat_interval_ms: 500,
            election_min_ms: 4000,
            election_max_ms: 8000,
            lease_duration_ms: 4500,
            max_clock_skew_ms: 500,
            bulk_prepare_window: 1024,
            election_driver_disabled: false,
            learner_stream_window_frames: 64,
            maintenance_tick_ms: 30_000,
        }
    }
}

/// All tunables of one group.
#[derive(Clone, Copy, Debug, PartialEq, Eq, Structural)]
pub struct CrowKVConfig {
    /// Run a prepare phase before every accept phase.
    pub force_classic: bool,
    /// Let a chosen entry be reported before its local log record is durable.
    pub wal_early_ack: bool,
    /// Let a chosen entry be reported before the local engine has applied it.
    pub async_engine_apply: bool,
    pub election: PxElectionConfig,
    pub paxos: PaxosConfig,
    pub inflight: InflightConfig,
}

impl CrowKVConfig {
    /// The tunables that a group starts with.
    pub open spec fn default_spec() -> Self {
        CrowKVConfig {
            force_classic: false,
            wal_early_ack: false,
            async_engine_apply: false,
            election: PxElectionConfig::default_spec(),
            paxos: PaxosConfig {
                max_paxos_retries: 3,
                max_slot_retries: 3,
                retry_base_backoff_ms: 5,
                proposer_window: 16,
            },
            inflight: InflightConfig {
                max_inflight_proposals: 16,
                inflight_queues: 1,
                inflight_admission: AdmissionPolicy::Reject,
                coalesce_window_us: 0,
                coalesce_max_keys: 255,
            },
        }
    }
}

impl Default for CrowKVConfig {
    fn default() -> (c: Self)
        ensures
            c == Self::default_spec(),
    {
        CrowKVConfig {
            force_classic: false,
            wal_early_ack: false,
            async_engine_apply: false,
            election: PxElectionConfig::default(),
            paxos: PaxosConfig::default(),
            inflight: InflightConfig::default(),
        }
    }
}

/// `0` stands for an absent value on the wire.
pub open spec fn spec_optional_u64(value: u64) -> Option<u64> {
    if value == 0 {
        None
    } else {
        Some(value)
    }
}

/// `0` stands for an absent value on the wire.
pub fn optional_u64(value: u64) -> (r: Option<u64>)
    ensures
        r == spec_optional_u64(value),
{
    if value == 0 {
        None
    } else {
        Some(value)
    }
}

/// On the wire `0` and nothing else stands for an absent value.
pub proof fn only_zero_stands_for_nothing(value: u64)
    ensures
        spec_optional_u64(value) is None <==> value == 0,
        spec_optional_u64(value) matches Some(v) ==> v == value,
{
}

} // verus!
