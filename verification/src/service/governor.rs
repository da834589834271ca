//! The governor's admission bookkeeping: it builds a snapshot from current
//! pressure, plans each sort, names its scratch directory, decides how many
//! descriptor permits it must hold, and keeps the counters it reports. Rows
//! never reach it: it governs, it does not funnel.

use vstd::prelude::*;

use crate::config::{SorterConfig, SorterConfigView};
use crate::engine::naming::{scratch_dir_name, zero_padded};
use crate::plan::{fan_in_spec, plan_spec, SortPlan, SortPlanner};
use crate::service::stats::SorterStats;
use crate::snapshot::{SorterSnapshot, SorterSnapshotView};
use crate::spec::SortSpec;

verus! {

/// The governor's state as plain values.
pub struct GovernorView {
    pub config: SorterConfigView,
    pub fd_total: u32,
    pub next_id: u64,
    pub in_memory_count: u64,
    pub external_count: u64,
}

/// The decision for one admitted sort.
pub struct Admission {
    /// The sort's id, unique for the governor's lifetime.
    pub id: u64,
    /// How the sort runs.
    pub plan: SortPlan,
    /// The name of the sort's private scratch directory, beneath the
    /// governor's scratch root.
    pub scratch_dir_name: String,
    /// File-descriptor permits the sort must hold before it runs (none for
    /// an in-memory sort).
    pub fd_permits: u32,
}

/// The permits a plan needs: its fan-in when it spills, none otherwise.
pub open spec fn permits_for(plan: SortPlan) -> u32 {
    match plan {
        SortPlan::InMemory => 0,
        SortPlan::External { max_fan_in, .. } => max_fan_in,
    }
}

/// The total permits the governor rations for a budget: the budget floored
/// at two, the minimum a merge needs.
pub open spec fn fd_total_for_budget(fd_budget: u32) -> u32 {
    if fd_budget < 2 {
        2
    } else {
        fd_budget
    }
}

/// The descriptor headroom a snapshot records for a permit count: the count,
/// saturating at `u32::MAX`.
pub open spec fn headroom_for_permits(available_permits: usize) -> u32 {
    if available_permits <= u32::MAX {
        available_permits as u32
    } else {
        u32::MAX
    }
}

/// The admission counters, updated together.
#[derive(Clone, Copy)]
struct Counters {
    next_id: u64,
    in_memory_count: u64,
    external_count: u64,
}

/// The single sort governor of a process.
pub struct Governor {
    config: SorterConfig,
    fd_total: u32,
    counters: Counters,
}

impl View for Governor {
    type V = GovernorView;

    closed spec fn view(&self) -> GovernorView {
        GovernorView {
            config: self.config@,
            fd_total: self.fd_total,
            next_id: self.counters.next_id,
            in_memory_count: self.counters.in_memory_count,
            external_count: self.counters.external_count,
        }
    }
}

impl Governor {
    /// A governor rationing `fd_budget` usable descriptors (floored at 2).
    pub fn new(config: SorterConfig, fd_budget: u32) -> (g: Self)
        ensures
            g@ == (GovernorView {
                config: config@,
                fd_total: fd_total_for_budget(fd_budget),
                next_id: 0,
                in_memory_count: 0,
                external_count: 0,
            }),
            fd_budget >= 2 ==> g@.fd_total == fd_budget,
            fd_budget < 2 ==> g@.fd_total == 2,
    {
        let fd_total = if fd_budget < 2 {
            2
        } else {
            fd_budget
        };
        Governor {
            config,
            fd_total,
            counters: Counters { next_id: 0, in_memory_count: 0, external_count: 0 },
        }
    }

    /// The sorts admitted so far.
    pub fn admitted(&self) -> (n: u64)
        ensures
            n == self@.next_id,
            n == self@.in_memory_count + self@.external_count,
    {
        proof {
            use_type_invariant(self);
        }
        self.counters.next_id
    }

    /// Total descriptor permits the governor rations.
    pub fn fd_total(&self) -> (r: u32)
        ensures
            r == self@.fd_total,
            r >= 2,
    {
        proof {
            use_type_invariant(self);
        }
        self.fd_total
    }

    #[verifier::type_invariant]
    closed spec fn inv(self) -> bool {
        &&& self.fd_total >= 2
        &&& self.counters.in_memory_count + self.counters.external_count == self.counters.next_id
    }

    /// Whether another sort can be admitted without a counter overflowing.
    pub fn can_admit(&self) -> (r: bool)
        ensures
            r == (self@.next_id < u64::MAX),
            r ==> self@.in_memory_count < u64::MAX && self@.external_count < u64::MAX,
    {
        proof {
            use_type_invariant(self);
        }
        self.counters.next_id < u64::MAX
    }

    /// The snapshot the planner decides against: the memory readings, the
    /// permits not held by an admitted sort (saturating at `u32::MAX`), and
    /// the external sorts in flight.
    pub fn snapshot(
        &self,
        effective_target_bytes: u64,
        resident_bytes: u64,
        available_permits: usize,
        active_external_sorts: u32,
    ) -> (s: SorterSnapshot)
        ensures
            s@ == (SorterSnapshotView {
                effective_target_bytes,
                resident_bytes,
                fd_headroom: headroom_for_permits(available_permits),
                active_external_sorts,
            }),
    {
        let fd_headroom = if available_permits as u128 <= u32::MAX as u128 {
            available_permits as u32
        } else {
            u32::MAX
        };
        SorterSnapshot::new(effective_target_bytes, resident_bytes, fd_headroom, active_external_sorts)
    }

    /// Admit a sort against `snap`: plan it, give it the next id and its
    /// scratch directory name, and count it on its path.
    pub fn admit_sort(&mut self, spec: &SortSpec, snap: &SorterSnapshot) -> (a: Admission)
        requires
            old(self)@.next_id < u64::MAX,
        ensures
            a.plan == plan_spec(spec@, snap@, old(self)@.config),
            a.id == old(self)@.next_id,
            a.scratch_dir_name@ == "sort-"@ + zero_padded(a.id as nat, 20),
            a.fd_permits == permits_for(a.plan),
            a.plan matches SortPlan::External { max_fan_in, .. } ==> a.fd_permits == max_fan_in,
            a.plan is InMemory ==> a.fd_permits == 0,
            final(self)@ == (GovernorView {
                next_id: (old(self)@.next_id + 1) as u64,
                in_memory_count: if a.plan is InMemory {
                    (old(self)@.in_memory_count + 1) as u64
                } else {
                    old(self)@.in_memory_count
                },
                external_count: if a.plan is External {
                    (old(self)@.external_count + 1) as u64
                } else {
                    old(self)@.external_count
                },
                ..old(self)@
            }),
    {
        proof {
            use_type_invariant(&*self);
        }
        let plan = SortPlanner::plan(spec, snap, &self.config);
        let old = self.counters;
        let id = old.next_id;
        let scratch_dir_name = scratch_dir_name(id);
        let (counters, fd_permits) = match plan {
            SortPlan::InMemory => (
                Counters {
                    next_id: id + 1,
                    in_memory_count: old.in_memory_count + 1,
                    external_count: old.external_count,
                },
                0,
            ),
            SortPlan::External { max_fan_in, .. } => (
                Counters {
                    next_id: id + 1,
                    in_memory_count: old.in_memory_count,
                    external_count: old.external_count + 1,
                },
                max_fan_in,
            ),
        };
        self.counters = counters;
        Admission { id, plan, scratch_dir_name, fd_permits }
    }

    /// The counters the governor reports, given the external sorts currently
    /// in flight and the permits not held by any of them.
    pub fn stats(&self, active_external_sorts: u32, available_permits: usize) -> (s: SorterStats)
        ensures
            s.in_memory_sorts + s.external_sorts == self@.next_id,
            s == (SorterStats {
                in_memory_sorts: self@.in_memory_count,
                external_sorts: self@.external_count,
                active_external_sorts,
                fd_permits_available: headroom_for_permits(available_permits),
                fd_permits_total: self@.fd_total,
            }),
    {
        proof {
            use_type_invariant(self);
        }
        let fd_permits_available = if available_permits as u128 <= u32::MAX as u128 {
            available_permits as u32
        } else {
            u32::MAX
        };
        SorterStats {
            in_memory_sorts: self.counters.in_memory_count,
            external_sorts: self.counters.external_count,
            active_external_sorts,
            fd_permits_available,
            fd_permits_total: self.fd_total,
        }
    }
}

/// Law: an external sort never waits for more descriptor permits than the
/// governor rations in total, so admission cannot stall on its own request
/// once the permits held by other sorts return.
pub proof fn law_permits_within_total(
    snap: SorterSnapshotView,
    cfg: SorterConfigView,
    fd_total: u32,
)
    requires
        cfg.well_formed(),
        fd_total >= 2,
        snap.fd_headroom <= fd_total,
    ensures
        fan_in_spec(snap, cfg) <= fd_total,
{
    let n: int = if snap.active_external_sorts < u32::MAX {
        snap.active_external_sorts + 1
    } else {
        u32::MAX as int
    };
    assert((snap.fd_headroom as int) / n <= snap.fd_headroom) by (nonlinear_arith)
        requires
            n >= 1,
    ;
}

/// Law: every sort the governor admits gets its own scratch directory: two
/// different ids never share a directory name.
pub proof fn law_distinct_ids_distinct_dirs(a: u64, b: u64)
    requires
        a != b,
    ensures
        "sort-"@ + zero_padded(a as nat, 20) != "sort-"@ + zero_padded(b as nat, 20),
{
    crate::engine::naming::law_distinct_ordinals_distinct_names(
        "sort-"@,
        Seq::empty(),
        a as nat,
        b as nat,
        20,
    );
    assert("sort-"@ + zero_padded(a as nat, 20) + Seq::<char>::empty() =~= "sort-"@ + zero_padded(
        a as nat,
        20,
    ));
    assert("sort-"@ + zero_padded(b as nat, 20) + Seq::<char>::empty() =~= "sort-"@ + zero_padded(
        b as nat,
        20,
    ));
}

/// Law: a sort holds exactly one descriptor permit per run file its merge
/// may open: an external plan with fan-in `max_fan_in` needs `max_fan_in`
/// permits, whatever its run buffer, and an in-memory plan needs none.
pub proof fn law_permits_match_the_fan_in(run_buffer_bytes: usize, max_fan_in: u32)
    ensures
        permits_for(SortPlan::External { run_buffer_bytes, max_fan_in }) == max_fan_in,
        permits_for(SortPlan::InMemory) == 0,
{
}

/// Law: the governor rations the whole budget it is given: the total is
/// the budget itself whenever the budget is at least two, and two (the
/// least a merge needs) otherwise. So the total is never below the budget,
/// and never above it unless the budget is below two.
pub proof fn law_total_is_the_budget(fd_budget: u32)
    ensures
        fd_budget >= 2 ==> fd_total_for_budget(fd_budget) == fd_budget,
        fd_budget < 2 ==> fd_total_for_budget(fd_budget) == 2,
        fd_total_for_budget(fd_budget) >= fd_budget,
        fd_total_for_budget(fd_budget) >= 2,
{
}

/// Law: a snapshot records the permits not held by any sort exactly, as
/// long as the count fits a `u32`, and `u32::MAX` beyond that.
pub proof fn law_headroom_is_the_free_permits(available_permits: usize)
    ensures
        available_permits <= u32::MAX ==> headroom_for_permits(available_permits)
            == available_permits,
        available_permits > u32::MAX ==> headroom_for_permits(available_permits) == u32::MAX,
{
}

} // verus!
