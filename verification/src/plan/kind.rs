//! The decision the planner produces.

use vstd::prelude::*;

verus! {

/// How a sort will be executed, chosen by [`crate::SortPlanner`].
#[derive(Debug, Clone, Copy, PartialEq, Eq, Structural)]
pub enum SortPlan {
    /// Sort entirely in memory: a buffer sort that never opens a file
    /// descriptor. Chosen for small sorts when the budget has headroom.
    InMemory,
    /// Spill to disk and merge. `run_buffer_bytes` bounds the in-memory run
    /// before each spill; `max_fan_in` bounds the number of run files open
    /// at once during the (possibly cascaded) merge.
    External {
        /// In-memory run size before a spill, in bytes.
        run_buffer_bytes: usize,
        /// Maximum run files open simultaneously during the merge.
        max_fan_in: u32,
    },
}

impl SortPlan {
    /// Whether this plan spills to disk.
    pub fn is_external(&self) -> (r: bool)
        ensures
            r == (*self is External),
    {
        match self {
            SortPlan::External { .. } => true,
            SortPlan::InMemory => false,
        }
    }

    /// Whether this plan stays entirely in memory.
    pub fn is_in_memory(&self) -> (r: bool)
        ensures
            r == (*self is InMemory),
    {
        match self {
            SortPlan::InMemory => true,
            SortPlan::External { .. } => false,
        }
    }
}

} // verus!
