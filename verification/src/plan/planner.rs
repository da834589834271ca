//! The pure in-memory-vs-external decision. No I/O, no state: given a
//! [`SortSpec`], a [`SorterSnapshot`] and a [`SorterConfig`] it returns a
//! [`SortPlan`]. This is the only place the two budgets (memory and file
//! descriptors) are reconciled.

use vstd::prelude::*;

use crate::config::{SorterConfig, SorterConfigView};
use crate::plan::kind::SortPlan;
use crate::snapshot::{SorterSnapshot, SorterSnapshotView};
use crate::spec::{SortSpec, SortSpecView};

verus! {

/// `x` clamped into `[lo, hi]` (for `lo <= hi`).
pub open spec fn clamp_spec(x: int, lo: int, hi: int) -> int {
    if x < lo {
        lo
    } else if x > hi {
        hi
    } else {
        x
    }
}

/// `a / b` rounded up.
pub open spec fn ceil_div_spec(a: int, b: int) -> int {
    if a % b == 0 {
        a / b
    } else {
        a / b + 1
    }
}

/// The number of sorts sharing the descriptor headroom: the active external
/// sorts plus the one being planned, saturating at `u32::MAX`.
pub open spec fn sharers_spec(active_external_sorts: u32) -> int {
    if active_external_sorts < u32::MAX {
        active_external_sorts + 1
    } else {
        u32::MAX as int
    }
}

/// The fan-in granted to a new external sort: the descriptor headroom
/// shared across the sorts in flight, floored at two (a merge needs two
/// inputs) and capped at the configured ceiling.
pub open spec fn fan_in_spec(snap: SorterSnapshotView, cfg: SorterConfigView) -> int {
    clamp_spec((snap.fd_headroom as int) / sharers_spec(snap.active_external_sorts), 2, cfg.max_fan_in as int)
}

/// The run buffer before conversion to `usize`: the buffer that keeps the
/// run count within `fan_in²` (at most a two-pass cascade), clamped to the
/// configured bounds, and never more than the available memory (or the
/// configured floor, when even the floor exceeds what is available).
pub open spec fn run_buffer_spec(
    estimated_bytes: int,
    available_bytes: int,
    min_run: int,
    max_run: int,
    fan_in: int,
) -> int {
    let two_pass_target = ceil_div_spec(estimated_bytes, fan_in * fan_in);
    let mem_cap = if available_bytes >= min_run { available_bytes } else { min_run };
    let clamped = clamp_spec(two_pass_target, min_run, max_run);
    if clamped <= mem_cap { clamped } else { mem_cap }
}

/// `x` as a `usize`, saturating at `usize::MAX`.
pub open spec fn saturating_usize(x: int) -> usize {
    if x <= usize::MAX { x as usize } else { usize::MAX }
}

/// Whether a sort stays in memory: it fits under the configured ceiling and
/// the available memory can hold it.
pub open spec fn stays_in_memory(
    spec: SortSpecView,
    snap: SorterSnapshotView,
    cfg: SorterConfigView,
) -> bool {
    spec.estimated_bytes <= cfg.in_memory_ceiling_bytes
        && snap.available_memory_bytes() >= spec.estimated_bytes
}

/// The plan for a sort.
pub open spec fn plan_spec(
    spec: SortSpecView,
    snap: SorterSnapshotView,
    cfg: SorterConfigView,
) -> SortPlan {
    if stays_in_memory(spec, snap, cfg) {
        SortPlan::InMemory
    } else {
        let fan_in = fan_in_spec(snap, cfg);
        SortPlan::External {
            run_buffer_bytes: saturating_usize(
                run_buffer_spec(
                    spec.estimated_bytes as int,
                    snap.available_memory_bytes() as int,
                    cfg.min_run_buffer_bytes as int,
                    cfg.max_run_buffer_bytes as int,
                    fan_in,
                ),
            ),
            max_fan_in: fan_in as u32,
        }
    }
}

/// Chooses how a sort runs. Stateless; every input is explicit so the
/// decision is exhaustively testable.
pub struct SortPlanner;

impl SortPlanner {
    /// Decide whether `spec` sorts in memory or spills, and with what run
    /// buffer and fan-in if it spills.
    ///
    /// A sort stays in memory only when it both fits under the configured
    /// ceiling and the budget has the headroom to hold it. Otherwise it
    /// spills, with the fan-in rationed from the global file-descriptor
    /// headroom and the run buffer sized against that fan-in to keep the
    /// merge-pass depth bounded.
    pub fn plan(spec: &SortSpec, snap: &SorterSnapshot, cfg: &SorterConfig) -> (p: SortPlan)
        ensures
            p == plan_spec(spec@, snap@, cfg@),
    {
        let available = snap.available_memory_bytes();
        if spec.estimated_bytes() <= cfg.in_memory_ceiling_bytes() && available
            >= spec.estimated_bytes() {
            return SortPlan::InMemory;
        }
        let max_fan_in = Self::ration_fan_in(snap, cfg);
        let run_buffer_bytes = Self::size_run_buffer(spec, snap, cfg, max_fan_in);
        SortPlan::External { run_buffer_bytes, max_fan_in }
    }

    /// Share the available file descriptors across the sorts in flight,
    /// floored at 2 and capped at the configured ceiling. `fd_headroom` is
    /// already net of the safety margin, so the margin is not subtracted
    /// again here.
    fn ration_fan_in(snap: &SorterSnapshot, cfg: &SorterConfig) -> (fan_in: u32)
        ensures
            fan_in == fan_in_spec(snap@, cfg@),
            2 <= fan_in <= cfg@.max_fan_in,
    {
        let share = snap.fd_headroom() / snap.active_external_sorts().saturating_add(1);
        let cap = cfg.max_fan_in();
        if share < 2 {
            2
        } else if share > cap {
            cap
        } else {
            share
        }
    }

    /// Pick a run buffer so the run count stays within `max_fan_in²` without
    /// requesting more memory than is available. Under fd pressure (small
    /// fan-in) this raises the buffer rather than letting the run count
    /// explode.
    fn size_run_buffer(spec: &SortSpec, snap: &SorterSnapshot, cfg: &SorterConfig, max_fan_in: u32) -> (r: usize)
        requires
            2 <= max_fan_in,
        ensures
            r == saturating_usize(
                run_buffer_spec(
                    spec@.estimated_bytes as int,
                    snap@.available_memory_bytes() as int,
                    cfg@.min_run_buffer_bytes as int,
                    cfg@.max_run_buffer_bytes as int,
                    max_fan_in as int,
                ),
            ),
    {
        let fan = max_fan_in as u64;
        assert(fan * fan <= u64::MAX) by (nonlinear_arith)
            requires
                fan <= u32::MAX,
        ;
        assert(fan * fan >= 4) by (nonlinear_arith)
            requires
                fan >= 2,
        ;
        let divisor = fan * fan;
        let estimated = spec.estimated_bytes();
        assert(estimated / divisor < u64::MAX) by (nonlinear_arith)
            requires
                divisor >= 4,
                estimated <= u64::MAX,
        ;
        let two_pass_target = if estimated % divisor == 0 {
            estimated / divisor
        } else {
            estimated / divisor + 1
        };
        let available = snap.available_memory_bytes();
        let min_run = cfg.min_run_buffer_bytes();
        let max_run = cfg.max_run_buffer_bytes();
        let mem_cap = if available >= min_run { available } else { min_run };
        let clamped = if two_pass_target < min_run {
            min_run
        } else if two_pass_target > max_run {
            max_run
        } else {
            two_pass_target
        };
        let buffer = if clamped <= mem_cap { clamped } else { mem_cap };
        if buffer as u128 <= usize::MAX as u128 {
            buffer as usize
        } else {
            usize::MAX
        }
    }
}

} // verus!
