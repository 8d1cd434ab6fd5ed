//! Periodic maintenance of a group: durable snapshots of the engine, and
//! reclaiming what no member needs any more.
//!
//! Snapshots are local and depend on this replica alone. Reclaiming is safe
//! only below what the whole group has, so it stays within the group's safe
//! slot; `0` means that nothing is known to be safe yet.

use crate::cluster::group::PxGroup;
use crate::cluster::local_replica::PxLocalReplica;
use crate::cluster::watermarks::{earlier, later};
use vstd::prelude::*;

verus! {

/// What one maintenance pass asks of the engine and of the log.
#[derive(Clone, Copy, Debug, PartialEq, Eq, Structural)]
pub struct MaintenancePass {
    /// The engine may drop versions that no snapshot from this slot on needs.
    pub gc_snapshot_slot: u64,
    /// The engine may drop what every member has applied.
    pub gc_safe_slot: u64,
    /// Reclaim log segments up to this slot.
    pub log_gc_slot: Option<u64>,
}

/// `after` and `pass` are what a maintenance pass behind a snapshot at
/// `engine_snapshot_at` makes of `before`.
pub open spec fn pass_made(
    before: PxGroup,
    after: PxGroup,
    engine_snapshot_at: u64,
    pass: MaintenancePass,
) -> bool {
    &&& pass.gc_snapshot_slot == before.group_snapshot_slot
    &&& pass.gc_safe_slot == before.group_safe_slot
    &&& after == (PxGroup {
        local_replica: PxLocalReplica {
            durable_snapshot: match before.local_replica.durable_snapshot {
                Some(slot) => Some(later(slot, engine_snapshot_at)),
                None => None,
            },
            ..before.local_replica
        },
        ..before
    })
    &&& pass.log_gc_slot == match after.local_replica.durable_snapshot {
        Some(slot) => if before.group_safe_slot == 0 {
            None
        } else {
            Some(earlier(slot, before.group_safe_slot))
        },
        None => None::<u64>,
    }
}

impl PxGroup {
    /// Pause between two maintenance passes in milliseconds, unless the loop is
    /// not to be started: it runs already, or the group has no background work.
    pub fn maintenance_tick(&self, running: bool) -> (tick_ms: Option<u64>)
        ensures
            tick_ms == if self.config.election.election_driver_disabled || running {
                None::<u64>
            } else {
                Some(self.config.election.maintenance_tick_ms)
            },
    {
        if self.config.election.election_driver_disabled || running {
            None
        } else {
            Some(self.config.election.maintenance_tick_ms)
        }
    }

    /// One maintenance pass, behind a snapshot of the engine that stands at
    /// `engine_snapshot_at`. The log's own mark of what is durable is raised to
    /// that slot and never lowered. Log segments are reclaimed up to the lower
    /// of that mark and the safe slot.
    pub fn run_pass(&mut self, engine_snapshot_at: u64) -> (r: MaintenancePass)
        requires
            old(self).wf(),
        ensures
            final(self).wf(),
            pass_made(*old(self), *final(self), engine_snapshot_at, r),
            r.gc_snapshot_slot == old(self).group_snapshot_slot,
            r.gc_safe_slot == old(self).group_safe_slot,
            *final(self) == (PxGroup {
                local_replica: PxLocalReplica {
                    durable_snapshot: match old(self).local_replica.durable_snapshot {
                        Some(slot) => Some(later(slot, engine_snapshot_at)),
                        None => None,
                    },
                    ..old(self).local_replica
                },
                ..*old(self)
            }),
            r.log_gc_slot == match final(self).local_replica.durable_snapshot {
                Some(slot) => if old(self).group_safe_slot == 0 {
                    None
                } else {
                    Some(earlier(slot, old(self).group_safe_slot))
                },
                None => None::<u64>,
            },
            r.log_gc_slot matches Some(slot) ==> slot <= old(self).group_safe_slot && slot
                <= final(self).local_replica.durable_snapshot->0,
    {
        let safe_slot: u64 = self.group_safe_slot;
        let snapshot_slot: u64 = self.group_snapshot_slot;
        let log_gc_slot = match self.local_replica.durable_snapshot {
            None => None,
            Some(slot) => {
                let durable: u64 = if engine_snapshot_at > slot {
                    engine_snapshot_at
                } else {
                    slot
                };
                self.local_replica.durable_snapshot = Some(durable);
                if safe_slot == 0 {
                    None
                } else if durable <= safe_slot {
                    Some(durable)
                } else {
                    Some(safe_slot)
                }
            },
        };
        MaintenancePass {
            gc_snapshot_slot: snapshot_slot,
            gc_safe_slot: safe_slot,
            log_gc_slot,
        }
    }
}

/// The log is reclaimed only below what every member has applied and what is
/// durable here, and as far as that: a slot that both have reached may go. The
/// mark of what is durable never goes back. Nothing is reclaimed before a safe
/// slot is known.
pub proof fn log_is_reclaimed_as_far_as_it_is_safe(
    before: PxGroup,
    after: PxGroup,
    engine_snapshot_at: u64,
    pass: MaintenancePass,
    durable: u64,
    slot: u64,
)
    requires
        pass_made(before, after, engine_snapshot_at, pass),
        before.local_replica.durable_snapshot == Some(durable),
    ensures
        after.local_replica.durable_snapshot matches Some(d) && d >= durable && d
            >= engine_snapshot_at && (d == durable || d == engine_snapshot_at),
        before.group_safe_slot == 0 <==> pass.log_gc_slot is None,
        pass.log_gc_slot matches Some(s) ==> s <= before.group_safe_slot && s
            <= after.local_replica.durable_snapshot->0,
        before.group_safe_slot > 0 && slot <= before.group_safe_slot && (slot <= durable || slot
            <= engine_snapshot_at) ==> (pass.log_gc_slot matches Some(s) && slot <= s),
        after.group_safe_slot == before.group_safe_slot,
{
}

/// A pass hands the group's own marks to the collection of the engine and
/// changes nothing but the mark of what is durable here. Without a log there is
/// no such mark and no log to reclaim.
pub proof fn pass_changes_only_the_durable_mark(
    before: PxGroup,
    after: PxGroup,
    engine_snapshot_at: u64,
    pass: MaintenancePass,
)
    requires
        pass_made(before, after, engine_snapshot_at, pass),
    ensures
        pass.gc_snapshot_slot == before.group_snapshot_slot,
        pass.gc_safe_slot == before.group_safe_slot,
        before.local_replica.durable_snapshot is None ==> pass.log_gc_slot is None && after == before,
        after.local_replica.role == before.local_replica.role,
        after.local_replica.current_term == before.local_replica.current_term,
        after.local_replica.learner == before.local_replica.learner,
        after.local_replica.acceptor == before.local_replica.acceptor,
        after.remote_replicas == before.remote_replicas,
        after.next_slot == before.next_slot,
{
}

} // verus!
