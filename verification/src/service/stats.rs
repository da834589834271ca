//! A point-in-time snapshot of the governor's counters.

use vstd::prelude::*;

verus! {

/// Observability counters reported by the governor.
#[derive(Debug, Clone, Copy)]
pub struct SorterStats {
    /// Sorts admitted on the in-memory path since startup.
    pub in_memory_sorts: u64,
    /// Sorts admitted on the external (spilling) path since startup.
    pub external_sorts: u64,
    /// External sorts currently admitted (holding or awaiting fd permits).
    pub active_external_sorts: u32,
    /// File-descriptor permits currently available to new external sorts.
    pub fd_permits_available: u32,
    /// Total file-descriptor permits the governor rations.
    pub fd_permits_total: u32,
}

impl Default for SorterStats {
    fn default() -> (s: Self)
        ensures
            s == (SorterStats {
                in_memory_sorts: 0,
                external_sorts: 0,
                active_external_sorts: 0,
                fd_permits_available: 0,
                fd_permits_total: 0,
            }),
    {
        SorterStats {
            in_memory_sorts: 0,
            external_sorts: 0,
            active_external_sorts: 0,
            fd_permits_available: 0,
            fd_permits_total: 0,
        }
    }
}

} // verus!
