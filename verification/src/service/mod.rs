//! The governor's side: the memory-pressure seam, the counters it reports,
//! and the admission bookkeeping it keeps.

mod governor;
mod permits;
mod pressure;
mod stats;

pub use governor::{
    Admission,
    Governor,
    GovernorView,
    fd_total_for_budget,
    headroom_for_permits,
    law_distinct_ids_distinct_dirs,
    law_headroom_is_the_free_permits,
    law_permits_match_the_fan_in,
    law_total_is_the_budget,
    law_permits_within_total,
    permits_for,
};
pub use permits::{
    has_lease, held_permits, law_permit_accounting, lease_at, PermitLease, PermitLedger,
    PermitLedgerView,
};
pub use pressure::{MemoryPressure, StaticPressure};
pub use stats::SorterStats;
