//! The spill ledger of one sort session: the decisions between a session's
//! I/O steps. It decides when a push must spill the buffered run first,
//! hands out run ordinals (refusing to wrap them), keeps the spilled runs in
//! creation order, decides when a group of runs must be merged so the spill
//! frontier stays bounded, remembers a failure so a failed session stays
//! failed, and decides how a session finishes. The session performs each
//! step's I/O and reports its outcome back.
//!
//! Runs carry a level: a freshly spilled run has level 0, and merging the
//! `f` youngest runs of level `L` (where `f` is the plan's merge width)
//! yields one run of level `L + 1`. Levels never increase along the run
//! list, and a settled ledger holds fewer than `f` runs of any level, so the
//! frontier grows only with the logarithm of the input.

use vstd::arithmetic::power::{lemma_pow_positive, pow};
use vstd::prelude::*;

use crate::engine::kway::{all_rows, law_spilled_runs_merge_to_the_sort, merged_rows, sorted_pieces};
use crate::engine::merge::lawful_order;
use crate::engine::sort::stable_sort_spec;
use crate::error::SorterError;
use crate::plan::SortPlan;

verus! {

/// What a push must do before buffering its row.
#[derive(Debug, Clone, Copy, PartialEq, Eq, Structural)]
pub enum PushStep {
    /// Spill the buffered run first: adding the row would overflow the
    /// plan's run buffer.
    SpillFirst,
    /// Buffer the row directly.
    Buffer,
}

/// How a session finishes.
#[derive(Debug, Clone, Copy, PartialEq, Eq, Structural)]
pub enum FinishStep {
    /// Nothing spilled: stream the sorted buffer from memory.
    StreamBuffer,
    /// Runs were spilled and rows are still buffered: spill them as a last
    /// run, then merge all runs.
    SpillRemaining,
    /// Merge the spilled runs.
    MergeRuns,
}

/// The step in progress between two ledger calls.
#[derive(Debug, Clone, Copy, PartialEq, Eq, Structural)]
pub enum LedgerPhase {
    /// No step in progress.
    Idle,
    /// The buffered run is being written to a new run file.
    Spilling,
    /// The youngest runs, all of level `level`, are being merged into one.
    Merging { level: u32 },
}

/// The ledger as plain values.
pub struct SpillLedgerView<R> {
    pub plan: SortPlan,
    pub buffered_rows: u64,
    pub buffer_bytes: usize,
    pub runs: Seq<R>,
    pub levels: Seq<u32>,
    pub next_run: u32,
    pub phase: LedgerPhase,
    pub failed: bool,
    /// How many rows were pushed, counted without bound.
    pub pushed: nat,
    /// Where the span of the first run starts, in push order.
    pub base: nat,
    /// Where the span of each run ends, in push order: run `i` holds the
    /// pushed rows from the end of run `i - 1` (or `base`) to `ends[i]`.
    pub ends: Seq<nat>,
    /// Where the rows handed to runs end (those of a merge in flight
    /// included); the buffer holds the pushed rows from here on.
    pub spilled: nat,
}

/// How many runs one merge may read at once under `plan`: its fan-in,
/// floored at two.
pub open spec fn merge_width(plan: SortPlan) -> int {
    match plan {
        SortPlan::External { max_fan_in, .. } => if max_fan_in < 2 {
            2
        } else {
            max_fan_in as int
        },
        SortPlan::InMemory => 2,
    }
}

/// Levels never increase along the run list.
pub open spec fn non_increasing(levels: Seq<u32>) -> bool {
    forall|i: int, j: int| 0 <= i <= j < levels.len() ==> levels[i] >= levels[j]
}

/// No window of `width` consecutive runs ending before `end` shares one
/// level.
pub open spec fn windows_settled(levels: Seq<u32>, width: int, end: int) -> bool {
    forall|i: int|
        0 <= i && i + width <= end ==> #[trigger] levels[i] != levels[i + width - 1]
}

/// No window of `width` consecutive runs shares one level: nothing is left
/// to merge.
pub open spec fn settled(levels: Seq<u32>, width: int) -> bool {
    windows_settled(levels, width, levels.len() as int)
}

/// The weight of a run list: a run of level `L` stands for `width^L` spilled
/// buffers. Every run ordinal handed out pays for at most one unit of it.
pub open spec fn weight(levels: Seq<u32>, width: int) -> int
    decreases levels.len(),
{
    if levels.len() == 0 {
        0
    } else {
        weight(levels.drop_last(), width) + pow(width, levels.last() as nat)
    }
}

/// The row estimate a push counts: at least one byte.
pub open spec fn row_bytes(estimated_bytes: usize) -> usize {
    if estimated_bytes == 0 {
        1
    } else {
        estimated_bytes
    }
}

/// `a + b`, saturating at `usize::MAX`.
pub open spec fn saturating_add_usize(a: usize, b: usize) -> usize {
    if a + b > usize::MAX {
        usize::MAX
    } else {
        (a + b) as usize
    }
}

impl<R> SpillLedgerView<R> {
    /// Where the span of the youngest run ends (`base` when there is none).
    pub open spec fn covered_end(self) -> nat {
        if self.ends.len() == 0 {
            self.base
        } else {
            self.ends.last()
        }
    }

    /// Where the span of run `i` starts.
    pub open spec fn run_start(self, i: int) -> nat {
        if i == 0 {
            self.base
        } else {
            self.ends[i - 1]
        }
    }

    /// Whether a push of a row estimated at `estimated_bytes` must spill the
    /// buffered run first: the plan spills, rows are buffered, and the row
    /// would take the buffer past the plan's run buffer.
    pub open spec fn needs_spill(self, estimated_bytes: usize) -> bool {
        match self.plan {
            SortPlan::External { run_buffer_bytes, .. } => self.buffered_rows > 0
                && saturating_add_usize(self.buffer_bytes, row_bytes(estimated_bytes))
                > run_buffer_bytes,
            SortPlan::InMemory => false,
        }
    }

    /// The ledger's invariant.
    pub open spec fn well_formed(self) -> bool {
        let f = merge_width(self.plan);
        &&& self.runs.len() == self.levels.len()
        &&& self.ends.len() == self.runs.len()
        &&& forall|i: int, j: int| 0 <= i <= j < self.ends.len() ==> self.ends[i] <= self.ends[j]
        &&& (self.ends.len() > 0 ==> self.base <= self.ends[0])
        &&& self.covered_end() <= self.spilled <= self.pushed
        &&& (!self.failed && !(self.phase is Merging) ==> self.spilled == self.covered_end())
        &&& (self.buffered_rows == 0 <==> self.pushed == self.spilled)
        &&& non_increasing(self.levels)
        &&& forall|i: int| 0 <= i < self.levels.len() ==> #[trigger] self.levels[i] <= self.next_run
        &&& (self.plan is InMemory ==> self.runs.len() == 0 && self.phase is Idle)
        &&& (self.plan matches SortPlan::External { run_buffer_bytes, .. } ==> self.buffered_rows
            <= 1 || self.buffer_bytes <= run_buffer_bytes)
        &&& match self.phase {
            LedgerPhase::Idle => {
                &&& windows_settled(self.levels, f, self.levels.len() - 1)
                &&& weight(self.levels, f) <= self.next_run
            },
            LedgerPhase::Spilling => {
                &&& settled(self.levels, f)
                &&& weight(self.levels, f) + 1 <= self.next_run
            },
            LedgerPhase::Merging { level } => {
                &&& settled(self.levels, f)
                &&& level < self.next_run
                &&& (self.levels.len() > 0 ==> self.levels.last() > level)
                &&& weight(self.levels, f) + pow(f, (level + 1) as nat) <= self.next_run
            },
        }
    }
}

/// The bookkeeping of one sort session, generic over the handle `R` of a
/// spilled run (its path, in a session that spills to files).
pub struct SpillLedger<R> {
    plan: SortPlan,
    buffered_rows: u64,
    buffer_bytes: usize,
    runs: Vec<R>,
    levels: Vec<u32>,
    next_run: u32,
    phase: LedgerPhase,
    failed: bool,
    pushed: Ghost<nat>,
    base: Ghost<nat>,
    ends: Ghost<Seq<nat>>,
    spilled: Ghost<nat>,
}

impl<R> View for SpillLedger<R> {
    type V = SpillLedgerView<R>;

    closed spec fn view(&self) -> SpillLedgerView<R> {
        SpillLedgerView {
            plan: self.plan,
            buffered_rows: self.buffered_rows,
            buffer_bytes: self.buffer_bytes,
            runs: self.runs@,
            levels: self.levels@,
            next_run: self.next_run,
            phase: self.phase,
            failed: self.failed,
            pushed: self.pushed@,
            base: self.base@,
            ends: self.ends@,
            spilled: self.spilled@,
        }
    }
}

impl<R> SpillLedger<R> {
    /// The ledger's invariant; every method keeps it.
    pub open spec fn wf(&self) -> bool {
        self@.well_formed()
    }

    /// An empty ledger for a session running `plan`.
    pub fn new(plan: SortPlan) -> (l: Self)
        ensures
            l.wf(),
            l@ == (SpillLedgerView {
                plan,
                buffered_rows: 0,
                buffer_bytes: 0,
                runs: Seq::<R>::empty(),
                levels: Seq::empty(),
                next_run: 0,
                phase: LedgerPhase::Idle,
                failed: false,
                pushed: 0,
                base: 0,
                ends: Seq::empty(),
                spilled: 0,
            }),
    {
        SpillLedger {
            plan,
            buffered_rows: 0,
            buffer_bytes: 0,
            runs: Vec::new(),
            levels: Vec::new(),
            next_run: 0,
            phase: LedgerPhase::Idle,
            failed: false,
            pushed: Ghost(0),
            base: Ghost(0),
            ends: Ghost(Seq::empty()),
            spilled: Ghost(0),
        }
    }

    /// The plan the session runs.
    pub fn plan(&self) -> (p: SortPlan)
        ensures
            p == self@.plan,
    {
        self.plan
    }

    /// The number of runs currently spilled and not yet merged away.
    pub fn run_count(&self) -> (n: usize)
        ensures
            n == self@.runs.len(),
    {
        self.runs.len()
    }

    /// Whether an earlier step failed.
    pub fn has_failed(&self) -> (r: bool)
        ensures
            r == self@.failed,
    {
        self.failed
    }

    /// The merge width of the session's plan: its fan-in, floored at two.
    pub fn merge_width(&self) -> (f: usize)
        ensures
            f == merge_width(self@.plan),
            self@.plan matches SortPlan::External { max_fan_in, .. } ==> f == if max_fan_in >= 2 {
                max_fan_in as usize
            } else {
                2
            },
            self@.plan is InMemory ==> f == 2,
    {
        match self.plan {
            SortPlan::External { max_fan_in, .. } => if max_fan_in < 2 {
                2
            } else {
                max_fan_in as usize
            },
            SortPlan::InMemory => 2,
        }
    }

    /// Decide what a push of a row estimated at `estimated_bytes` must do
    /// first. A failed session refuses every push.
    pub fn plan_push(&self, estimated_bytes: usize) -> (step: Result<PushStep, SorterError>)
        requires
            self.wf(),
        ensures
            self@.failed ==> step matches Err(SorterError::Poisoned),
            !self@.failed ==> (step matches Ok(s) && (s == PushStep::SpillFirst <==> self@.needs_spill(
                estimated_bytes,
            ))),
            !self@.failed && self@.plan is InMemory ==> step == Ok::<PushStep, SorterError>(
                PushStep::Buffer,
            ),
            !self@.failed && self@.buffered_rows == 0 ==> step == Ok::<PushStep, SorterError>(
                PushStep::Buffer,
            ),
            !self@.failed && (self@.plan matches SortPlan::External { run_buffer_bytes, .. }
                && self@.buffer_bytes + (if estimated_bytes == 0 {
                1
            } else {
                estimated_bytes as int
            }) <= run_buffer_bytes) ==> step == Ok::<PushStep, SorterError>(PushStep::Buffer),
    {
        if self.failed {
            return Err(SorterError::Poisoned);
        }
        let bytes = if estimated_bytes == 0 {
            1
        } else {
            estimated_bytes
        };
        match self.plan {
            SortPlan::External { run_buffer_bytes, .. } => {
                if self.buffered_rows > 0 && self.buffer_bytes.saturating_add(bytes)
                    > run_buffer_bytes {
                    Ok(PushStep::SpillFirst)
                } else {
                    Ok(PushStep::Buffer)
                }
            },
            SortPlan::InMemory => Ok(PushStep::Buffer),
        }
    }

    /// Record that a row estimated at `estimated_bytes` was buffered.
    pub fn record_push(&mut self, estimated_bytes: usize)
        requires
            old(self).wf(),
            old(self)@.phase is Idle,
            !old(self)@.failed,
            !old(self)@.needs_spill(estimated_bytes),
        ensures
            final(self).wf(),
            final(self)@ == (SpillLedgerView {
                buffered_rows: if old(self)@.buffered_rows < u64::MAX {
                    (old(self)@.buffered_rows + 1) as u64
                } else {
                    u64::MAX
                },
                buffer_bytes: saturating_add_usize(
                    old(self)@.buffer_bytes,
                    row_bytes(estimated_bytes),
                ),
                pushed: old(self)@.pushed + 1,
                ..old(self)@
            }),
    {
        let bytes = if estimated_bytes == 0 {
            1
        } else {
            estimated_bytes
        };
        self.buffered_rows = self.buffered_rows.saturating_add(1);
        self.buffer_bytes = self.buffer_bytes.saturating_add(bytes);
        self.pushed = Ghost(self.pushed@ + 1);
    }

    /// Start spilling the buffered run: hand out the next run ordinal. When
    /// every ordinal is used the spill is refused before anything is
    /// created, and the session is failed.
    pub fn begin_spill(&mut self) -> (ordinal: Result<u32, SorterError>)
        requires
            old(self).wf(),
            old(self)@.phase is Idle,
            !old(self)@.failed,
            old(self)@.plan is External,
            old(self)@.buffered_rows > 0,
            settled(old(self)@.levels, merge_width(old(self)@.plan)),
        ensures
            final(self).wf(),
            old(self)@.next_run == u32::MAX ==> (ordinal matches Err(SorterError::RunOrdinalExhausted)
                && final(self)@ == (SpillLedgerView { failed: true, ..old(self)@ })),
            old(self)@.next_run < u32::MAX ==> ordinal == Ok::<u32, SorterError>(old(self)@.next_run)
                && final(self)@ == (SpillLedgerView {
                next_run: (old(self)@.next_run + 1) as u32,
                phase: LedgerPhase::Spilling,
                ..old(self)@
            }),
    {
        if self.next_run == u32::MAX {
            self.failed = true;
            return Err(SorterError::RunOrdinalExhausted);
        }
        let ordinal = self.next_run;
        self.next_run = self.next_run + 1;
        self.phase = LedgerPhase::Spilling;
        Ok(ordinal)
    }

    /// The buffered run was written as `run`: it joins the run list as the
    /// youngest run, at level 0, and the buffer is empty again.
    pub fn spill_succeeded(&mut self, run: R)
        requires
            old(self).wf(),
            old(self)@.phase is Spilling,
        ensures
            final(self).wf(),
            final(self)@ == (SpillLedgerView {
                buffered_rows: 0,
                buffer_bytes: 0,
                runs: old(self)@.runs.push(run),
                levels: old(self)@.levels.push(0),
                phase: LedgerPhase::Idle,
                ends: old(self)@.ends.push(old(self)@.pushed),
                spilled: old(self)@.pushed,
                ..old(self)@
            }),
    {
        self.runs.push(run);
        self.levels.push(0);
        self.ends = Ghost(self.ends@.push(self.pushed@));
        self.spilled = Ghost(self.pushed@);
        self.buffered_rows = 0;
        self.buffer_bytes = 0;
        self.phase = LedgerPhase::Idle;
        proof {
            let f = merge_width(self.plan);
            let old_levels = self.levels@.drop_last();
            assert(old_levels =~= old(self)@.levels);
            assert forall|i: int| 0 <= i && i + f <= self.levels@.len() - 1 implies #[trigger] self.levels@[i]
                != self.levels@[i + f - 1] by {
                assert(old_levels[i] == self.levels@[i]);
                assert(old_levels[i + f - 1] == self.levels@[i + f - 1]);
            }
            lemma_weight_push(old_levels, f, 0);
            assert(pow(f, 0) == 1) by {
                reveal(pow);
            }
        }
    }

    /// Writing the buffered run failed: the session is failed for good.
    pub fn spill_failed(&mut self)
        requires
            old(self).wf(),
            old(self)@.phase is Spilling,
        ensures
            final(self).wf(),
            final(self)@ == (SpillLedgerView {
                phase: LedgerPhase::Idle,
                failed: true,
                ..old(self)@
            }),
    {
        self.phase = LedgerPhase::Idle;
        self.failed = true;
    }

    /// Whether the youngest runs must be merged before the session goes on:
    /// `Some(start)` when the `f` youngest runs (from index `start`) share
    /// one level, `None` when the frontier is settled.
    pub fn compaction_due(&self) -> (start: Option<usize>)
        requires
            self.wf(),
            self@.phase is Idle,
        ensures
            start is None <==> settled(self@.levels, merge_width(self@.plan)),
            start matches Some(s) ==> s == self@.runs.len() - merge_width(self@.plan),
    {
        let f = self.merge_width();
        let len = self.levels.len();
        if len < f {
            return None;
        }
        if self.levels[len - f] == self.levels[len - 1] {
            Some(len - f)
        } else {
            proof {
                let levels = self.levels@;
                assert forall|i: int| 0 <= i && i + f <= levels.len() implies #[trigger] levels[i]
                    != levels[i + f - 1] by {
                    if i + f == levels.len() {
                        assert(i == len - f);
                    }
                }
            }
            None
        }
    }

    /// Start merging the `f` youngest runs, which share one level: hand out
    /// the ordinal of the merged run and take the runs out of the list, in
    /// creation order. When every ordinal is used the merge is refused and
    /// the session is failed.
    pub fn begin_compaction(&mut self) -> (taken: Result<(u32, Vec<R>), SorterError>)
        requires
            old(self).wf(),
            old(self)@.phase is Idle,
            !old(self)@.failed,
            !settled(old(self)@.levels, merge_width(old(self)@.plan)),
        ensures
            final(self).wf(),
            old(self)@.next_run == u32::MAX ==> (taken matches Err(SorterError::RunOrdinalExhausted)
                && final(self)@ == (SpillLedgerView { failed: true, ..old(self)@ })),
            old(self)@.next_run < u32::MAX ==> {
                let start = old(self)@.runs.len() - merge_width(old(self)@.plan);
                &&& taken matches Ok((ordinal, group))
                &&& ordinal == old(self)@.next_run
                &&& group@ == old(self)@.runs.subrange(start, old(self)@.runs.len() as int)
                &&& final(self)@ == (SpillLedgerView {
                    runs: old(self)@.runs.subrange(0, start),
                    levels: old(self)@.levels.subrange(0, start),
                    ends: old(self)@.ends.subrange(0, start),
                    next_run: (old(self)@.next_run + 1) as u32,
                    phase: LedgerPhase::Merging { level: old(self)@.levels.last() },
                    ..old(self)@
                })
            },
    {
        let f = self.merge_width();
        let len = self.levels.len();
        if self.next_run == u32::MAX {
            self.failed = true;
            return Err(SorterError::RunOrdinalExhausted);
        }
        proof {
            let levels = self.levels@;
            assert(len >= f) by {
                if len < f {
                    assert(settled(levels, f as int));
                }
            }
            assert(levels[len - f] == levels[len - 1]) by {
                if levels[len - f] != levels[len - 1] {
                    assert forall|i: int| 0 <= i && i + f <= levels.len() implies #[trigger] levels[i]
                        != levels[i + f - 1] by {
                        if i + f == levels.len() {
                            assert(i == len - f);
                        }
                    }
                }
            }
        }
        let level = self.levels[len - 1];
        let ordinal = self.next_run;
        self.next_run = self.next_run + 1;
        let group = self.runs.split_off(len - f);
        let _merged_levels = self.levels.split_off(len - f);
        self.ends = Ghost(self.ends@.subrange(0, (len - f) as int));
        self.phase = LedgerPhase::Merging { level };
        proof {
            let old_levels = old(self)@.levels;
            let levels = self.levels@;
            let start = len - f;
            assert forall|i: int| 0 <= i && i + f <= levels.len() implies #[trigger] levels[i]
                != levels[i + f - 1] by {
                assert(levels[i] == old_levels[i]);
                assert(levels[i + f - 1] == old_levels[i + f - 1]);
            }
            let group_levels = old_levels.subrange(start, len as int);
            assert forall|i: int| 0 <= i < group_levels.len() implies #[trigger] group_levels[i]
                == level by {
                assert(old_levels[start] >= old_levels[start + i]);
                assert(old_levels[start + i] >= old_levels[len - 1]);
            }
            lemma_weight_uniform(group_levels, f as int, level);
            lemma_weight_split(old_levels, f as int, start as int);
            assert(old_levels.subrange(0, start as int) =~= levels);
            assert(pow(f as int, (level + 1) as nat) == f * pow(f as int, level as nat)) by {
                reveal(pow);
            }
            if levels.len() > 0 {
                let k = start - 1;
                assert(old_levels[k] >= old_levels[start]);
                assert(old_levels[start] == level);
                assert(old_levels[len - 2] == level);
                assert(k + f <= len - 1);
                assert(old_levels[k] != old_levels[k + f - 1]);
                assert(levels.last() == old_levels[k]);
            }
        }
        Ok((ordinal, group))
    }

    /// The taken runs were merged into `merged`: it takes their place as the
    /// youngest run, one level above them.
    pub fn compaction_succeeded(&mut self, merged: R)
        requires
            old(self).wf(),
            old(self)@.phase is Merging,
        ensures
            final(self).wf(),
            final(self)@ == (SpillLedgerView {
                runs: old(self)@.runs.push(merged),
                levels: old(self)@.levels.push((old(self)@.phase->level + 1) as u32),
                ends: old(self)@.ends.push(old(self)@.spilled),
                phase: LedgerPhase::Idle,
                ..old(self)@
            }),
    {
        let level = match self.phase {
            LedgerPhase::Merging { level } => level,
            _ => 0,
        };
        self.runs.push(merged);
        self.levels.push(level + 1);
        self.ends = Ghost(self.ends@.push(self.spilled@));
        self.phase = LedgerPhase::Idle;
        proof {
            let f = merge_width(self.plan);
            let old_levels = self.levels@.drop_last();
            assert(old_levels =~= old(self)@.levels);
            lemma_weight_push(old_levels, f, (level + 1) as u32);
            assert forall|i: int| 0 <= i && i + f <= self.levels@.len() - 1 implies #[trigger] self.levels@[i]
                != self.levels@[i + f - 1] by {
                assert(old_levels[i] == self.levels@[i]);
                assert(old_levels[i + f - 1] == self.levels@[i + f - 1]);
            }
        }
    }

    /// Merging the taken runs failed: the session is failed for good.
    pub fn compaction_failed(&mut self)
        requires
            old(self).wf(),
            old(self)@.phase is Merging,
        ensures
            final(self).wf(),
            final(self)@ == (SpillLedgerView {
                phase: LedgerPhase::Idle,
                failed: true,
                ..old(self)@
            }),
    {
        let ghost level = old(self)@.phase->level;
        self.phase = LedgerPhase::Idle;
        self.failed = true;
        proof {
            let f = merge_width(self.plan);
            let levels = self.levels@;
            lemma_pow_positive(f, (level + 1) as nat);
            assert forall|i: int| 0 <= i && i + f <= levels.len() - 1 implies #[trigger] levels[i]
                != levels[i + f - 1] by {
            }
        }
    }

    /// Decide how the session finishes. A failed session yields no partial
    /// results; a session that never spilled streams its buffer.
    pub fn plan_finish(&self) -> (step: Result<FinishStep, SorterError>)
        requires
            self.wf(),
        ensures
            self@.failed ==> step matches Err(SorterError::Poisoned),
            !self@.failed ==> (step matches Ok(s) && s == (if self@.plan is InMemory
                || self@.runs.len() == 0 {
                FinishStep::StreamBuffer
            } else if self@.buffered_rows > 0 {
                FinishStep::SpillRemaining
            } else {
                FinishStep::MergeRuns
            })),
    {
        if self.failed {
            return Err(SorterError::Poisoned);
        }
        if self.plan.is_in_memory() || self.runs.len() == 0 {
            Ok(FinishStep::StreamBuffer)
        } else if self.buffered_rows > 0 {
            Ok(FinishStep::SpillRemaining)
        } else {
            Ok(FinishStep::MergeRuns)
        }
    }

    /// Hand the spilled runs, in creation order, to the final merge.
    pub fn take_runs(&mut self) -> (runs: Vec<R>)
        requires
            old(self).wf(),
            old(self)@.phase is Idle,
        ensures
            final(self).wf(),
            runs@ == old(self)@.runs,
            final(self)@ == (SpillLedgerView {
                runs: Seq::empty(),
                levels: Seq::empty(),
                ends: Seq::empty(),
                base: old(self)@.spilled,
                ..old(self)@
            }),
    {
        let runs = self.runs.split_off(0);
        self.levels = Vec::new();
        self.ends = Ghost(Seq::empty());
        self.base = Ghost(self.spilled@);
        assert(self.runs@ =~= Seq::<R>::empty());
        assert(runs@ =~= old(self)@.runs);
        runs
    }
}

proof fn lemma_weight_push(levels: Seq<u32>, width: int, level: u32)
    ensures
        weight(levels.push(level), width) == weight(levels, width) + pow(width, level as nat),
{
    assert(levels.push(level).drop_last() =~= levels);
}

proof fn lemma_weight_nonneg(levels: Seq<u32>, width: int)
    requires
        width >= 1,
    ensures
        weight(levels, width) >= 0,
    decreases levels.len(),
{
    if levels.len() > 0 {
        lemma_weight_nonneg(levels.drop_last(), width);
        lemma_pow_positive(width, levels.last() as nat);
    }
}

proof fn lemma_weight_split(levels: Seq<u32>, width: int, k: int)
    requires
        0 <= k <= levels.len(),
    ensures
        weight(levels, width) == weight(levels.subrange(0, k), width) + weight(
            levels.subrange(k, levels.len() as int),
            width,
        ),
    decreases levels.len(),
{
    let len = levels.len() as int;
    if k == len {
        assert(levels.subrange(0, k) =~= levels);
        assert(levels.subrange(k, len) =~= Seq::<u32>::empty());
    } else {
        let dl = levels.drop_last();
        lemma_weight_split(dl, width, k);
        assert(dl.subrange(0, k) =~= levels.subrange(0, k));
        assert(levels.subrange(k, len).drop_last() =~= dl.subrange(k, len - 1));
    }
}

proof fn lemma_weight_uniform(levels: Seq<u32>, width: int, level: u32)
    requires
        forall|i: int| 0 <= i < levels.len() ==> #[trigger] levels[i] == level,
    ensures
        weight(levels, width) == levels.len() * pow(width, level as nat),
    decreases levels.len(),
{
    if levels.len() > 0 {
        let dl = levels.drop_last();
        lemma_weight_uniform(dl, width, level);
        assert(levels.len() * pow(width, level as nat) == dl.len() * pow(width, level as nat) + pow(
            width,
            level as nat,
        )) by (nonlinear_arith)
            requires
                levels.len() == dl.len() + 1,
        ;
    }
}

proof fn lemma_weight_covers_each(levels: Seq<u32>, width: int, i: int)
    requires
        width >= 1,
        0 <= i < levels.len(),
    ensures
        weight(levels, width) >= pow(width, levels[i] as nat),
    decreases levels.len(),
{
    let dl = levels.drop_last();
    lemma_weight_nonneg(dl, width);
    if i < levels.len() - 1 {
        lemma_weight_covers_each(dl, width, i);
        lemma_pow_positive(width, levels.last() as nat);
    }
}

proof fn lemma_pow_at_least_two_pow(width: int, e: nat)
    requires
        width >= 2,
    ensures
        pow(width, e) >= pow(2, e),
    decreases e,
{
    reveal(pow);
    if e > 0 {
        lemma_pow_at_least_two_pow(width, (e - 1) as nat);
        lemma_pow_positive(2, (e - 1) as nat);
        assert(width * pow(width, (e - 1) as nat) >= 2 * pow(2, (e - 1) as nat)) by (nonlinear_arith)
            requires
                width >= 2,
                pow(width, (e - 1) as nat) >= pow(2, (e - 1) as nat),
                pow(2, (e - 1) as nat) > 0,
        ;
    }
}

proof fn lemma_levels_descend(levels: Seq<u32>, f: int, q: int)
    requires
        f >= 2,
        non_increasing(levels),
        settled(levels, f),
        q >= 0,
        q * (f - 1) < levels.len(),
    ensures
        levels[q * (f - 1)] + q <= levels[0],
    decreases q,
{
    if q > 0 {
        let p = q - 1;
        assert(p * (f - 1) + (f - 1) == q * (f - 1)) by (nonlinear_arith)
            requires
                p == q - 1,
        ;
        assert(p * (f - 1) >= 0) by (nonlinear_arith)
            requires
                p >= 0,
                f >= 2,
        ;
        lemma_levels_descend(levels, f, p);
        let i = p * (f - 1);
        assert(i + f <= levels.len());
        assert(levels[i] != levels[i + f - 1]);
        assert(levels[i] >= levels[i + f - 1]);
    }
}

/// Law: the spill frontier stays bounded. Once settled, the ledger holds
/// fewer than `f` runs of any one level (no `f` consecutive runs share a
/// level, and levels never increase along the list), so it holds at most
/// `(f - 1) * (top_level + 1)` runs, where `f` is the merge width; and the
/// top level is logarithmic in the run ordinals handed out:
/// `f^top_level <= next_run`. As ordinals are 32-bit, the top level is below
/// 32 and the ledger never holds more than `32 * (f - 1)` runs.
pub proof fn law_frontier_bounded<R>(v: SpillLedgerView<R>)
    requires
        v.well_formed(),
        settled(v.levels, merge_width(v.plan)),
        v.levels.len() > 0,
    ensures
        v.runs.len() <= (merge_width(v.plan) - 1) * (v.levels[0] + 1),
        pow(merge_width(v.plan), v.levels[0] as nat) <= v.next_run,
        v.levels[0] < 32,
        v.runs.len() <= 32 * (merge_width(v.plan) - 1),
{
    let f = merge_width(v.plan);
    lemma_weight_covers_each(v.levels, f, 0);
    lemma_weight_nonneg(v.levels, f);
    if let LedgerPhase::Merging { level } = v.phase {
        lemma_pow_positive(f, (level + 1) as nat);
    }
    let levels = v.levels;
    let top = levels[0];
    lemma_pow_at_least_two_pow(f, top as nat);
    if top >= 32 {
        vstd::arithmetic::power2::lemma2_to64();
        vstd::arithmetic::power::lemma_pow_increases(2, 32, top as nat);
        lemma_pow_positive(2, 32);
        assert(vstd::arithmetic::power2::pow2(32) == 0x100000000);
        assert(pow(2, 32) == 0x100000000);
    }
    let q = levels[0] + 1;
    if levels.len() > (f - 1) * q {
        assert((f - 1) * q == q * (f - 1)) by (nonlinear_arith);
        lemma_levels_descend(levels, f, q as int);
        assert(levels[q * (f - 1)] + q <= levels[0]);
    }
    assert((f - 1) * (top + 1) <= 32 * (f - 1)) by (nonlinear_arith)
        requires
            f >= 2,
            top < 32,
    ;
}

/// Law: a session buffers at most one run. Under a spilling plan, the
/// buffered rows fit in the plan's run buffer, unless a single row alone
/// exceeds it.
pub proof fn law_buffer_holds_at_most_one_run<R>(v: SpillLedgerView<R>)
    requires
        v.well_formed(),
    ensures
        v.plan matches SortPlan::External { run_buffer_bytes, .. } ==> v.buffered_rows <= 1
            || v.buffer_bytes <= run_buffer_bytes,
{
}

/// Law: a session planned in memory never spills: no push ever has to
/// spill first, and it holds no runs.
pub proof fn law_in_memory_never_spills<R>(v: SpillLedgerView<R>, estimated_bytes: usize)
    requires
        v.well_formed(),
        v.plan is InMemory,
    ensures
        !v.needs_spill(estimated_bytes),
        v.runs.len() == 0,
{
}

/// The pushed rows in the span of run `i`, in push order, where `rows` are
/// all the rows pushed so far.
pub open spec fn span_rows<R, K, V>(v: SpillLedgerView<R>, rows: Seq<(K, V)>, i: int) -> Seq<(K, V)> {
    rows.subrange(v.run_start(i) as int, v.ends[i] as int)
}

/// The spans of runs `a` up to (not including) `b`, in run order.
pub open spec fn spans<R, K, V>(v: SpillLedgerView<R>, rows: Seq<(K, V)>, a: int, b: int) -> Seq<
    Seq<(K, V)>,
> {
    Seq::new((b - a) as nat, |i: int| span_rows(v, rows, a + i))
}

/// The pushed rows still in the buffer, in push order.
pub open spec fn buffer_rows<R, K, V>(v: SpillLedgerView<R>, rows: Seq<(K, V)>) -> Seq<(K, V)> {
    rows.subrange(v.spilled as int, v.pushed as int)
}

proof fn lemma_span_bounds<R>(v: SpillLedgerView<R>, a: int, b: int)
    requires
        v.well_formed(),
        0 <= a <= b <= v.runs.len(),
    ensures
        v.run_start(a) <= v.run_start(b) <= v.pushed,
        b < v.runs.len() ==> v.run_start(b) <= v.ends[b],
{
    if v.ends.len() > 0 {
        assert(v.ends[v.ends.len() - 1] == v.covered_end());
        if b > 0 {
            assert(v.ends[b - 1] <= v.ends[v.ends.len() - 1]);
        }
        if a > 0 {
            assert(v.ends[a - 1] <= v.ends[b - 1]);
        } else if b > 0 {
            assert(v.ends[0] <= v.ends[b - 1]);
        }
        if b < v.runs.len() && b > 0 {
            assert(v.ends[b - 1] <= v.ends[b]);
        }
    }
}

proof fn lemma_spans_cover<R, K, V>(v: SpillLedgerView<R>, rows: Seq<(K, V)>, a: int, b: int)
    requires
        v.well_formed(),
        rows.len() == v.pushed,
        0 <= a <= b <= v.runs.len(),
    ensures
        all_rows(spans(v, rows, a, b)) == rows.subrange(v.run_start(a) as int, v.run_start(b) as int),
    decreases b - a,
{
    lemma_span_bounds(v, a, b);
    if b == a {
        assert(spans(v, rows, a, b) =~= Seq::<Seq<(K, V)>>::empty());
        assert(rows.subrange(v.run_start(a) as int, v.run_start(b) as int) =~= Seq::<(K, V)>::empty());
    } else {
        lemma_spans_cover(v, rows, a, b - 1);
        lemma_span_bounds(v, a, b - 1);
        lemma_span_bounds(v, b - 1, b);
        assert(spans(v, rows, a, b).drop_last() =~= spans(v, rows, a, b - 1));
        assert(spans(v, rows, a, b).last() == span_rows(v, rows, b - 1));
        assert(rows.subrange(v.run_start(a) as int, v.run_start(b) as int) =~= rows.subrange(
            v.run_start(a) as int,
            v.run_start(b - 1) as int,
        ) + span_rows(v, rows, b - 1));
    }
}

/// Law: when each run holds the pushed rows of its span sorted stably by
/// key (a spill writes its buffer so, and this law shows that a merge
/// writes its group so), merging any consecutive runs `a` to `b` gives the
/// stable sort of the pushed rows of their joint span. A compaction merges
/// the youngest runs and records the merged run with exactly that span, so
/// every run keeps holding its span sorted; the cascade passes merge
/// consecutive runs too.
pub proof fn law_runs_merge_to_the_sort_of_their_span<R, K: Ord, V>(
    v: SpillLedgerView<R>,
    rows: Seq<(K, V)>,
    a: int,
    b: int,
)
    requires
        lawful_order::<K>(),
        v.well_formed(),
        rows.len() == v.pushed,
        0 <= a <= b <= v.runs.len(),
    ensures
        merged_rows(sorted_pieces(spans(v, rows, a, b))) == stable_sort_spec(
            rows.subrange(v.run_start(a) as int, v.run_start(b) as int),
        ),
{
    law_spilled_runs_merge_to_the_sort(spans(v, rows, a, b));
    lemma_spans_cover(v, rows, a, b);
}

/// Law: a session's output is the stable sort of every row pushed. For a
/// session that has not failed and is between steps, with `rows` the rows
/// pushed in order: a session that never spilled buffers all of them (the
/// in-memory path streams their stable sort); spilling the buffer as a last
/// run and merging all runs gives their stable sort; and when nothing is
/// buffered, merging the runs alone does. With dedup, collapsing equal keys
/// of that stable sort keeps the first pushed row of each key
/// (`law_dedup_keeps_first_pushed`).
pub proof fn law_session_output_is_the_stable_sort<R, K: Ord, V>(
    v: SpillLedgerView<R>,
    rows: Seq<(K, V)>,
)
    requires
        lawful_order::<K>(),
        v.well_formed(),
        !v.failed,
        v.phase is Idle,
        v.base == 0,
        rows.len() == v.pushed,
    ensures
        v.runs.len() == 0 ==> buffer_rows(v, rows) == rows,
        merged_rows(
            sorted_pieces(spans(v, rows, 0, v.runs.len() as int).push(buffer_rows(v, rows))),
        ) == stable_sort_spec(rows),
        v.buffered_rows == 0 ==> merged_rows(sorted_pieces(spans(v, rows, 0, v.runs.len() as int)))
            == stable_sort_spec(rows),
{
    let n = v.runs.len() as int;
    let pieces = spans(v, rows, 0, n);
    lemma_spans_cover(v, rows, 0, n);
    assert(v.run_start(n) == v.covered_end());
    assert(rows.subrange(0, v.pushed as int) =~= rows);
    if n == 0 {
        assert(buffer_rows(v, rows) =~= rows);
    }
    let with_buffer = pieces.push(buffer_rows(v, rows));
    assert(with_buffer.drop_last() =~= pieces);
    assert(all_rows(with_buffer) =~= rows);
    law_spilled_runs_merge_to_the_sort(with_buffer);
    if v.buffered_rows == 0 {
        assert(all_rows(pieces) =~= rows);
        law_spilled_runs_merge_to_the_sort(pieces);
    }
}

/// Law: the merge width is the plan's fan-in. Under an external plan whose
/// fan-in is at least two, compaction and the cascade merge exactly
/// `max_fan_in` runs at a time, whatever the run buffer; only a fan-in
/// below two, or an in-memory plan, gives the floor of two.
pub proof fn law_merge_width_is_the_fan_in(run_buffer_bytes: usize, max_fan_in: u32)
    ensures
        max_fan_in >= 2 ==> merge_width(SortPlan::External { run_buffer_bytes, max_fan_in })
            == max_fan_in,
        max_fan_in < 2 ==> merge_width(SortPlan::External { run_buffer_bytes, max_fan_in }) == 2,
        merge_width(SortPlan::InMemory) == 2,
        merge_width(SortPlan::External { run_buffer_bytes, max_fan_in }) >= max_fan_in,
{
}

/// Law: a push spills first exactly when the buffer would overflow. Under
/// an external plan, with the row counted as at least one byte and the sum
/// saturating at `usize::MAX` as the byte count does, a push spills first if
/// and only if rows are buffered and the buffer plus the row exceeds the
/// run buffer. So no push spills while the sum stays within the run buffer,
/// however many rows are buffered, and an empty buffer never spills.
pub proof fn law_spill_exactly_on_overflow<R>(v: SpillLedgerView<R>, estimated_bytes: usize)
    ensures
        v.plan matches SortPlan::External { run_buffer_bytes, .. } ==> {
            let row: int = if estimated_bytes == 0 {
                1
            } else {
                estimated_bytes as int
            };
            let sum: int = v.buffer_bytes + row;
            let counted: int = if sum > usize::MAX {
                usize::MAX as int
            } else {
                sum
            };
            &&& v.needs_spill(estimated_bytes) <==> (v.buffered_rows > 0 && counted
                > run_buffer_bytes)
            &&& sum <= run_buffer_bytes ==> !v.needs_spill(estimated_bytes)
        },
        v.buffered_rows == 0 ==> !v.needs_spill(estimated_bytes),
        v.plan is InMemory ==> !v.needs_spill(estimated_bytes),
{
}

/// Law: a push counts its row's estimated bytes, and at least one byte for
/// a row estimated at zero, and the buffer's byte count adds them exactly
/// until it would pass `usize::MAX`, where it stays.
pub proof fn law_push_counts_its_bytes(buffer_bytes: usize, estimated_bytes: usize)
    ensures
        estimated_bytes > 0 ==> row_bytes(estimated_bytes) == estimated_bytes,
        estimated_bytes == 0 ==> row_bytes(estimated_bytes) == 1,
        buffer_bytes + estimated_bytes <= usize::MAX ==> saturating_add_usize(
            buffer_bytes,
            estimated_bytes,
        ) == buffer_bytes + estimated_bytes,
        buffer_bytes + estimated_bytes > usize::MAX ==> saturating_add_usize(
            buffer_bytes,
            estimated_bytes,
        ) == usize::MAX,
{
}

} // verus!
