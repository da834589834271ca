//! The planner: every branch of the in-memory-vs-external decision and the
//! fan-in / run-buffer rationing.

use sort_governor::{SortPlan, SortPlanner, SortSpec, SorterConfig, SorterSnapshot};

const MIB: u64 = 1024 * 1024;
const GIB: u64 = 1024 * 1024 * 1024;

fn plan(spec: &SortSpec, snap: &SorterSnapshot) -> SortPlan {
    SortPlanner::plan(spec, snap, &SorterConfig::default())
}

#[test]
fn small_sort_with_headroom_stays_in_memory() {
    let spec = SortSpec::new(1_000, MIB);
    let snap = SorterSnapshot::new(GIB, 0, 1_000, 0);
    assert_eq!(plan(&spec, &snap), SortPlan::InMemory);
}

#[test]
fn small_sort_without_headroom_must_spill() {
    // Under the 8 MiB ceiling, but only 2 MiB of memory is available.
    let spec = SortSpec::new(10_000, 4 * MIB);
    let snap = SorterSnapshot::new(2 * MIB, 0, 1_000, 0);
    assert!(plan(&spec, &snap).is_external());
}

#[test]
fn large_sort_with_plentiful_fds_uses_full_fan_in() {
    let spec = SortSpec::new(1_000_000_000, 10 * GIB);
    let snap = SorterSnapshot::new(4 * GIB, 0, 1_000, 0);
    let cfg = SorterConfig::default();
    match SortPlanner::plan(&spec, &snap, &cfg) {
        SortPlan::External {
            run_buffer_bytes,
            max_fan_in,
        } => {
            assert_eq!(max_fan_in, cfg.max_fan_in());
            let buf = run_buffer_bytes as u64;
            assert!(buf >= cfg.min_run_buffer_bytes() && buf <= cfg.max_run_buffer_bytes());
        }
        SortPlan::InMemory => panic!("a 10 GiB sort must spill"),
    }
}

#[test]
fn fd_pressure_shrinks_fan_in_and_raises_run_buffer() {
    // Only 4 usable fds -> tiny fan-in, so the planner spends memory (max run
    // buffer) to keep the pass depth bounded.
    let spec = SortSpec::new(1_000_000_000, 10 * GIB);
    let snap = SorterSnapshot::new(2 * GIB, 0, 4, 0);
    let cfg = SorterConfig::default();
    match SortPlanner::plan(&spec, &snap, &cfg) {
        SortPlan::External {
            run_buffer_bytes,
            max_fan_in,
        } => {
            assert_eq!(max_fan_in, 4);
            assert_eq!(run_buffer_bytes as u64, cfg.max_run_buffer_bytes());
        }
        SortPlan::InMemory => panic!("must spill"),
    }
}

#[test]
fn concurrent_sorts_divide_the_fd_budget() {
    // 1000 usable fds shared across 16 sorts (15 active + this one) -> 62.
    let spec = SortSpec::new(1_000_000_000, 10 * GIB);
    let snap = SorterSnapshot::new(4 * GIB, 0, 1_000, 15);
    match plan(&spec, &snap) {
        SortPlan::External { max_fan_in, .. } => assert_eq!(max_fan_in, 62),
        SortPlan::InMemory => panic!("must spill"),
    }
}

#[test]
fn fan_in_never_drops_below_two() {
    // Exactly one usable fd still yields a workable two-way merge.
    let spec = SortSpec::new(1_000_000_000, 10 * GIB);
    let snap = SorterSnapshot::new(4 * GIB, 0, 1, 0);
    match plan(&spec, &snap) {
        SortPlan::External { max_fan_in, .. } => assert_eq!(max_fan_in, 2),
        SortPlan::InMemory => panic!("must spill"),
    }
}

#[test]
fn run_buffer_clamps_to_the_floor() {
    // Forced external but tiny: the two-pass target is well under the floor.
    let spec = SortSpec::new(10_000, 4 * MIB);
    let snap = SorterSnapshot::new(2 * MIB, 0, 1_000, 0);
    let cfg = SorterConfig::default();
    match SortPlanner::plan(&spec, &snap, &cfg) {
        SortPlan::External {
            run_buffer_bytes, ..
        } => assert_eq!(run_buffer_bytes as u64, cfg.min_run_buffer_bytes()),
        SortPlan::InMemory => panic!("must spill"),
    }
}

#[test]
fn run_buffer_is_capped_by_available_memory() {
    // Small fan-in wants a 256 MiB buffer, but only 50 MiB is available.
    let spec = SortSpec::new(1_000_000_000, 10 * GIB);
    let snap = SorterSnapshot::new(50 * MIB, 0, 4, 0);
    let cfg = SorterConfig::default();
    match SortPlanner::plan(&spec, &snap, &cfg) {
        SortPlan::External {
            run_buffer_bytes,
            max_fan_in,
        } => {
            assert_eq!(max_fan_in, 4);
            assert_eq!(run_buffer_bytes as u64, 50 * MIB);
        }
        SortPlan::InMemory => panic!("must spill"),
    }
}

#[test]
fn from_fd_limit_caps_fan_in_below_the_limit() {
    // A 256-fd process: (256 - 96) / 8 = 20.
    let cfg = SorterConfig::from_fd_limit(256);
    assert_eq!(cfg.max_fan_in(), 20);
    let spec = SortSpec::new(1_000_000_000, 10 * GIB);
    let snap = SorterSnapshot::new(4 * GIB, 0, 1_000, 0);
    match SortPlanner::plan(&spec, &snap, &cfg) {
        SortPlan::External { max_fan_in, .. } => assert!(max_fan_in <= 20),
        SortPlan::InMemory => panic!("must spill"),
    }
}

#[test]
fn estimate_exactly_at_the_ceiling_stays_in_memory() {
    let spec = SortSpec::new(1, 8 * MIB);
    let snap = SorterSnapshot::new(8 * MIB, 0, 10, 0);
    assert_eq!(plan(&spec, &snap), SortPlan::InMemory);
    let over = SortSpec::new(1, 8 * MIB + 1);
    assert!(plan(&over, &SorterSnapshot::new(GIB, 0, 10, 0)).is_external());
}

#[test]
fn resident_memory_above_target_leaves_nothing_available() {
    let snap = SorterSnapshot::new(MIB, 3 * MIB, 10, 0);
    assert_eq!(snap.available_memory_bytes(), 0);
    let spec = SortSpec::new(1, 0);
    // Even an empty sort fits when nothing is available: 0 <= 0.
    assert_eq!(plan(&spec, &snap), SortPlan::InMemory);
    let spec = SortSpec::new(1, 1);
    match plan(&spec, &snap) {
        // Floor wins over the zero available memory.
        SortPlan::External { run_buffer_bytes, max_fan_in } => {
            assert_eq!(run_buffer_bytes as u64, MIB);
            assert_eq!(max_fan_in, 10);
        }
        SortPlan::InMemory => panic!("must spill"),
    }
}

#[test]
fn two_pass_target_sits_between_the_bounds() {
    // 10 GiB over a fan-in of 8: 10 GiB / 64 = 160 MiB per run.
    let spec = SortSpec::new(1, 10 * GIB);
    let snap = SorterSnapshot::new(4 * GIB, 0, 8, 0);
    match plan(&spec, &snap) {
        SortPlan::External { run_buffer_bytes, max_fan_in } => {
            assert_eq!(max_fan_in, 8);
            assert_eq!(run_buffer_bytes as u64, 160 * MIB);
        }
        SortPlan::InMemory => panic!("must spill"),
    }
    // A remainder rounds the target up: (10 GiB + 1) / 64 -> 160 MiB + 1.
    let spec = SortSpec::new(1, 10 * GIB + 1);
    match plan(&spec, &snap) {
        SortPlan::External { run_buffer_bytes, .. } => {
            assert_eq!(run_buffer_bytes as u64, 160 * MIB + 1)
        }
        SortPlan::InMemory => panic!("must spill"),
    }
}

#[test]
fn fd_share_saturates_when_active_count_is_maximal() {
    let spec = SortSpec::new(1, 10 * GIB);
    let snap = SorterSnapshot::new(4 * GIB, 0, u32::MAX, u32::MAX);
    match plan(&spec, &snap) {
        // u32::MAX / u32::MAX = 1, floored at 2.
        SortPlan::External { max_fan_in, .. } => assert_eq!(max_fan_in, 2),
        SortPlan::InMemory => panic!("must spill"),
    }
}

#[test]
fn concurrent_fan_ins_fit_the_headroom() {
    // Law: with 100 fds and 3 sorts in flight plus this one, each gets 25.
    let spec = SortSpec::new(1, 10 * GIB);
    let snap = SorterSnapshot::new(4 * GIB, 0, 100, 3);
    match plan(&spec, &snap) {
        SortPlan::External { max_fan_in, .. } => assert!(max_fan_in * 4 <= 100),
        SortPlan::InMemory => panic!("must spill"),
    }
}

#[test]
fn smaller_fan_in_never_gets_a_smaller_buffer() {
    let spec = SortSpec::new(1, 10 * GIB);
    let mut last = 0u64;
    for headroom in (2..80u32).rev() {
        let snap = SorterSnapshot::new(4 * GIB, 0, headroom, 0);
        match plan(&spec, &snap) {
            SortPlan::External { run_buffer_bytes, .. } => {
                assert!(run_buffer_bytes as u64 >= last);
                last = run_buffer_bytes as u64;
            }
            SortPlan::InMemory => panic!("must spill"),
        }
    }
}

#[test]
fn plan_kind_predicates() {
    assert!(SortPlan::InMemory.is_in_memory());
    assert!(!SortPlan::InMemory.is_external());
    let ext = SortPlan::External { run_buffer_bytes: 1, max_fan_in: 2 };
    assert!(ext.is_external());
    assert!(!ext.is_in_memory());
}
