//! The sort plan, the pure planner that chooses it, and the laws the plan
//! obeys across all inputs.

mod kind;
mod laws;
mod planner;

pub use kind::SortPlan;
pub use laws::{
    law_fan_in_monotone_in_headroom,
    law_fan_in_shares_headroom,
    law_fan_in_within_bounds,
    law_plan_shape,
    law_run_buffer_bounds_pass_depth,
    law_run_buffer_within_bounds,
    law_smaller_fan_in_larger_buffer,
};
pub use planner::{
    ceil_div_spec,
    clamp_spec,
    fan_in_spec,
    plan_spec,
    run_buffer_spec,
    saturating_usize,
    sharers_spec,
    stays_in_memory,
    SortPlanner,
};
