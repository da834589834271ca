//! A process-wide governor for bounded sorting: the pure planner that
//! reconciles memory and file-descriptor pressure, the governor's admission
//! bookkeeping, the spill ledger that keeps a session's run frontier bounded,
//! the cascade-merge pass planner, and the framing of spilled run files.

mod config;
mod error;
mod snapshot;
mod spec;

pub mod engine;
pub mod plan;
pub mod service;

pub use config::{
    fan_in_for_fd_limit, law_configs_as_built, law_fd_limit_fan_in_bounded, SorterConfig,
    SorterConfigView,
};
pub use error::SorterError;
pub use plan::{SortPlan, SortPlanner};
pub use service::{MemoryPressure, SorterStats, StaticPressure};
pub use snapshot::{SorterSnapshot, SorterSnapshotView};
pub use spec::{SortSpec, SortSpecView};
