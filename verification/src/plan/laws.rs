//! Properties of the planner that hold across all inputs.

use vstd::prelude::*;

use crate::config::SorterConfigView;
use crate::plan::kind::SortPlan;
use crate::plan::planner::{
    ceil_div_spec,
    fan_in_spec,
    plan_spec,
    run_buffer_spec,
    saturating_usize,
    sharers_spec,
    stays_in_memory,
};
use crate::snapshot::SorterSnapshotView;
use crate::spec::SortSpecView;

verus! {

proof fn lemma_ceil_div_covers(a: int, b: int)
    requires
        a >= 0,
        b > 0,
    ensures
        ceil_div_spec(a, b) >= 0,
        ceil_div_spec(a, b) * b >= a,
{
    let q = a / b;
    let r = a % b;
    assert(a == q * b + r && 0 <= r < b && q >= 0) by (nonlinear_arith)
        requires
            b > 0,
            a >= 0,
            q == a / b,
            r == a % b,
    ;
    if r != 0 {
        assert((q + 1) * b == q * b + b) by (nonlinear_arith);
    }
}

proof fn lemma_ceil_div_least(a: int, b: int, k: int)
    requires
        a >= 0,
        b > 0,
        k >= 0,
        k * b >= a,
    ensures
        ceil_div_spec(a, b) <= k,
{
    let q = a / b;
    let r = a % b;
    assert(a == q * b + r && 0 <= r < b) by (nonlinear_arith)
        requires
            b > 0,
            q == a / b,
            r == a % b,
    ;
    assert(q <= k) by (nonlinear_arith)
        requires
            a == q * b + r,
            0 <= r,
            b > 0,
            k * b >= a,
    ;
    if r != 0 {
        assert(q < k) by (nonlinear_arith)
            requires
                a == q * b + r,
                0 < r,
                b > 0,
                k * b >= a,
        ;
    }
}

proof fn lemma_ceil_div_antitone(a: int, b1: int, b2: int)
    requires
        a >= 0,
        0 < b1 <= b2,
    ensures
        ceil_div_spec(a, b2) <= ceil_div_spec(a, b1),
{
    lemma_ceil_div_covers(a, b1);
    let c = ceil_div_spec(a, b1);
    assert(c * b2 >= c * b1) by (nonlinear_arith)
        requires
            c >= 0,
            b1 <= b2,
    ;
    lemma_ceil_div_least(a, b2, c);
}

/// Law: the fan-in granted to an external sort always permits a merge (at
/// least two inputs) and never exceeds the configured ceiling.
pub proof fn law_fan_in_within_bounds(snap: SorterSnapshotView, cfg: SorterConfigView)
    requires
        cfg.well_formed(),
    ensures
        2 <= fan_in_spec(snap, cfg) <= cfg.max_fan_in,
{
}

/// Law: concurrent sorts cannot collectively exhaust the descriptor
/// headroom. Whenever the headroom allows every sort in flight (the active
/// ones plus the new one) the two-input minimum, the fan-ins granted at that
/// rate to all of them fit within the headroom.
pub proof fn law_fan_in_shares_headroom(snap: SorterSnapshotView, cfg: SorterConfigView)
    requires
        cfg.well_formed(),
        snap.fd_headroom >= 2 * sharers_spec(snap.active_external_sorts),
    ensures
        fan_in_spec(snap, cfg) * sharers_spec(snap.active_external_sorts) <= snap.fd_headroom,
{
    let n = sharers_spec(snap.active_external_sorts);
    let h = snap.fd_headroom as int;
    let share = h / n;
    assert(share * n <= h && share >= 2) by (nonlinear_arith)
        requires
            n > 0,
            h >= 2 * n,
            share == h / n,
    ;
    let f = fan_in_spec(snap, cfg);
    assert(f <= share);
    assert(f * n <= share * n) by (nonlinear_arith)
        requires
            f <= share,
            n > 0,
    ;
}

/// Law: more descriptor headroom never yields a smaller fan-in.
pub proof fn law_fan_in_monotone_in_headroom(
    snap: SorterSnapshotView,
    more: SorterSnapshotView,
    cfg: SorterConfigView,
)
    requires
        cfg.well_formed(),
        more.active_external_sorts == snap.active_external_sorts,
        snap.fd_headroom <= more.fd_headroom,
    ensures
        fan_in_spec(snap, cfg) <= fan_in_spec(more, cfg),
{
    let n = sharers_spec(snap.active_external_sorts);
    assert((snap.fd_headroom as int) / n <= (more.fd_headroom as int) / n) by (nonlinear_arith)
        requires
            n > 0,
            snap.fd_headroom <= more.fd_headroom,
    ;
}

/// Law: the run buffer stays within the configured bounds and never asks
/// for more memory than is available, unless even the configured floor
/// exceeds what is available (then it is exactly the floor).
pub proof fn law_run_buffer_within_bounds(
    estimated_bytes: u64,
    available_bytes: u64,
    cfg: SorterConfigView,
    fan_in: u32,
)
    requires
        cfg.well_formed(),
        2 <= fan_in,
    ensures
        ({
            let b = run_buffer_spec(
                estimated_bytes as int,
                available_bytes as int,
                cfg.min_run_buffer_bytes as int,
                cfg.max_run_buffer_bytes as int,
                fan_in as int,
            );
            &&& cfg.min_run_buffer_bytes <= b <= cfg.max_run_buffer_bytes
            &&& (b <= available_bytes || b == cfg.min_run_buffer_bytes)
        }),
{
}

/// Law: the run buffer keeps the run count within `fan_in²` (so at most a
/// two-pass cascade) whenever neither the configured ceiling nor the
/// available memory is what limits it.
pub proof fn law_run_buffer_bounds_pass_depth(
    estimated_bytes: u64,
    available_bytes: u64,
    cfg: SorterConfigView,
    fan_in: u32,
)
    requires
        cfg.well_formed(),
        2 <= fan_in,
        ceil_div_spec(estimated_bytes as int, fan_in * fan_in) <= cfg.max_run_buffer_bytes,
        ceil_div_spec(estimated_bytes as int, fan_in * fan_in) <= available_bytes,
    ensures
        estimated_bytes <= run_buffer_spec(
            estimated_bytes as int,
            available_bytes as int,
            cfg.min_run_buffer_bytes as int,
            cfg.max_run_buffer_bytes as int,
            fan_in as int,
        ) * (fan_in * fan_in),
{
    let d = fan_in * fan_in;
    assert(d > 0) by (nonlinear_arith)
        requires
            fan_in >= 2,
            d == fan_in * fan_in,
    ;
    lemma_ceil_div_covers(estimated_bytes as int, d);
    let t = ceil_div_spec(estimated_bytes as int, d);
    let b = run_buffer_spec(
        estimated_bytes as int,
        available_bytes as int,
        cfg.min_run_buffer_bytes as int,
        cfg.max_run_buffer_bytes as int,
        fan_in as int,
    );
    assert(b >= t);
    assert(b * d >= t * d) by (nonlinear_arith)
        requires
            b >= t,
            d > 0,
    ;
}

/// Law: under descriptor pressure the planner spends memory rather than
/// runs: a smaller fan-in never gets a smaller run buffer.
pub proof fn law_smaller_fan_in_larger_buffer(
    estimated_bytes: u64,
    available_bytes: u64,
    cfg: SorterConfigView,
    small_fan_in: u32,
    large_fan_in: u32,
)
    requires
        cfg.well_formed(),
        2 <= small_fan_in <= large_fan_in,
    ensures
        run_buffer_spec(
            estimated_bytes as int,
            available_bytes as int,
            cfg.min_run_buffer_bytes as int,
            cfg.max_run_buffer_bytes as int,
            large_fan_in as int,
        ) <= run_buffer_spec(
            estimated_bytes as int,
            available_bytes as int,
            cfg.min_run_buffer_bytes as int,
            cfg.max_run_buffer_bytes as int,
            small_fan_in as int,
        ),
{
    let ds = small_fan_in * small_fan_in;
    let dl = large_fan_in * large_fan_in;
    assert(0 < ds <= dl) by (nonlinear_arith)
        requires
            2 <= small_fan_in <= large_fan_in,
            ds == small_fan_in * small_fan_in,
            dl == large_fan_in * large_fan_in,
    ;
    lemma_ceil_div_antitone(estimated_bytes as int, ds, dl);
}

/// Law: a sort spills exactly when it does not both fit under the
/// configured ceiling and fit in the available memory; an external plan
/// always carries a workable fan-in within the configured ceiling.
pub proof fn law_plan_shape(spec: SortSpecView, snap: SorterSnapshotView, cfg: SorterConfigView)
    requires
        cfg.well_formed(),
    ensures
        plan_spec(spec, snap, cfg) is InMemory <==> stays_in_memory(spec, snap, cfg),
        plan_spec(spec, snap, cfg) matches SortPlan::External { run_buffer_bytes, max_fan_in }
            ==> 2 <= max_fan_in <= cfg.max_fan_in && run_buffer_bytes == saturating_usize(
            run_buffer_spec(
                spec.estimated_bytes as int,
                snap.available_memory_bytes() as int,
                cfg.min_run_buffer_bytes as int,
                cfg.max_run_buffer_bytes as int,
                max_fan_in as int,
            ),
        ),
{
}

} // verus!
