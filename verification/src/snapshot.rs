//! The live, moment-to-moment resource pressure the planner reads: memory
//! and file-descriptor pressure held together in one value.

use vstd::prelude::*;

verus! {

/// The readings of a [`SorterSnapshot`] as plain values.
pub struct SorterSnapshotView {
    pub effective_target_bytes: u64,
    pub resident_bytes: u64,
    pub fd_headroom: u32,
    pub active_external_sorts: u32,
}

impl SorterSnapshotView {
    /// Memory available to a new sort: the effective target less what is
    /// already resident, saturating at zero.
    pub open spec fn available_memory_bytes(self) -> u64 {
        if self.effective_target_bytes >= self.resident_bytes {
            (self.effective_target_bytes - self.resident_bytes) as u64
        } else {
            0
        }
    }
}

/// A point-in-time view of process-global sort pressure.
///
/// Holding both the memory and the file-descriptor pressure in one value is
/// the whole point: only a component that sees both can size a spill run
/// buffer against the fan-in instead of letting the two budgets fight.
#[derive(Debug, Clone, Copy)]
pub struct SorterSnapshot {
    effective_target_bytes: u64,
    resident_bytes: u64,
    fd_headroom: u32,
    active_external_sorts: u32,
}

impl View for SorterSnapshot {
    type V = SorterSnapshotView;

    closed spec fn view(&self) -> SorterSnapshotView {
        SorterSnapshotView {
            effective_target_bytes: self.effective_target_bytes,
            resident_bytes: self.resident_bytes,
            fd_headroom: self.fd_headroom,
            active_external_sorts: self.active_external_sorts,
        }
    }
}

impl SorterSnapshot {
    /// Capture current pressure.
    ///
    /// - `effective_target_bytes`: the memory governor's effective RSS target.
    /// - `resident_bytes`: non-cache working-set bytes already resident.
    /// - `fd_headroom`: usable sort file descriptors available right now,
    ///   already net of the safety margin.
    /// - `active_external_sorts`: external sorts currently holding fds.
    pub fn new(
        effective_target_bytes: u64,
        resident_bytes: u64,
        fd_headroom: u32,
        active_external_sorts: u32,
    ) -> (s: Self)
        ensures
            s@ == (SorterSnapshotView {
                effective_target_bytes,
                resident_bytes,
                fd_headroom,
                active_external_sorts,
            }),
    {
        SorterSnapshot { effective_target_bytes, resident_bytes, fd_headroom, active_external_sorts }
    }

    /// The memory governor's effective RSS target.
    pub fn effective_target_bytes(&self) -> (r: u64)
        ensures
            r == self@.effective_target_bytes,
    {
        self.effective_target_bytes
    }

    /// Non-cache working-set bytes already resident.
    pub fn resident_bytes(&self) -> (r: u64)
        ensures
            r == self@.resident_bytes,
    {
        self.resident_bytes
    }

    /// Open file descriptors still available before the process limit.
    pub fn fd_headroom(&self) -> (r: u32)
        ensures
            r == self@.fd_headroom,
    {
        self.fd_headroom
    }

    /// External sorts currently holding file descriptors.
    pub fn active_external_sorts(&self) -> (r: u32)
        ensures
            r == self@.active_external_sorts,
    {
        self.active_external_sorts
    }

    /// Memory available to a new sort right now: the effective target less
    /// what is already resident, saturating at zero.
    pub fn available_memory_bytes(&self) -> (r: u64)
        ensures
            r == self@.available_memory_bytes(),
    {
        self.effective_target_bytes.saturating_sub(self.resident_bytes)
    }
}

} // verus!
