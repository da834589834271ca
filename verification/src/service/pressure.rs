//! The memory-pressure seam the governor reads to build a planner snapshot.
//!
//! A process-wide memory governor implements [`MemoryPressure`]; keeping it
//! behind a trait keeps this crate free of any particular governor and lets
//! tests drive the planner with fixed readings.

use vstd::prelude::*;

verus! {

/// A live source of process memory pressure.
pub trait MemoryPressure: Send + Sync + 'static {
    /// The memory governor's effective RSS target (target minus active
    /// leases).
    fn effective_target_bytes(&self) -> u64;

    /// Non-cache working-set bytes already resident.
    fn resident_bytes(&self) -> u64;
}

/// A fixed pressure reading, for tests and for processes that run without
/// a memory governor.
#[derive(Debug, Clone, Copy)]
pub struct StaticPressure {
    effective_target_bytes: u64,
    resident_bytes: u64,
}

impl View for StaticPressure {
    type V = (u64, u64);

    /// The fixed (effective target, resident) reading.
    closed spec fn view(&self) -> (u64, u64) {
        (self.effective_target_bytes, self.resident_bytes)
    }
}

impl StaticPressure {
    /// A pressure source that always reports the given target and residency.
    pub fn new(effective_target_bytes: u64, resident_bytes: u64) -> (p: Self)
        ensures
            p@ == (effective_target_bytes, resident_bytes),
    {
        StaticPressure { effective_target_bytes, resident_bytes }
    }
}

impl MemoryPressure for StaticPressure {
    fn effective_target_bytes(&self) -> (r: u64)
        ensures
            r == self@.0,
    {
        self.effective_target_bytes
    }

    fn resident_bytes(&self) -> (r: u64)
        ensures
            r == self@.1,
    {
        self.resident_bytes
    }
}

} // verus!
