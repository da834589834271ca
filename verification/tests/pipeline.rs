//! The engine's decisions end to end, with in-memory "files": pushes, spills
//! and merges are driven exactly as a session drives them, by the spill
//! ledger, the cascade pass planner, the merge front and the dedup filter.

use std::collections::HashMap;

use sort_governor::engine::cascade::{next_pass, CascadeStep};
use sort_governor::engine::ledger::{FinishStep, PushStep, SpillLedger};
use sort_governor::engine::merge::{DedupFilter, MergeFront};
use sort_governor::engine::sort::{sort_rows_by_key, sorted_values};
use sort_governor::SortPlan;

/// Rows are (key, value); runs live in a map from run handle to rows.
struct Session {
    ledger: SpillLedger<u32>,
    buffer: Vec<(u32, u32)>,
    files: HashMap<u32, Vec<(u32, u32)>>,
    next_handle: u32,
    dedup: bool,
    max_runs_seen: usize,
}

fn merge(files: &mut HashMap<u32, Vec<(u32, u32)>>, group: &[u32]) -> Vec<(u32, u32)> {
    let mut readers: Vec<std::vec::IntoIter<(u32, u32)>> = group
        .iter()
        .map(|h| files.remove(h).expect("run").into_iter())
        .collect();
    let heads = readers.iter_mut().map(|r| r.next()).collect();
    let mut front = MergeFront::new(heads);
    let mut out = Vec::new();
    while let Some(idx) = front.next_source() {
        let row = front.take_head(idx);
        front.refill(idx, readers[idx].next());
        out.push(row);
    }
    out
}

impl Session {
    fn new(plan: SortPlan, dedup: bool) -> Self {
        Session {
            ledger: SpillLedger::new(plan),
            buffer: Vec::new(),
            files: HashMap::new(),
            next_handle: 0,
            dedup,
            max_runs_seen: 0,
        }
    }

    fn store(&mut self, rows: Vec<(u32, u32)>) -> u32 {
        let handle = self.next_handle;
        self.next_handle += 1;
        self.files.insert(handle, rows);
        handle
    }

    fn spill(&mut self) {
        self.ledger.begin_spill().expect("ordinal");
        let rows = sort_rows_by_key(std::mem::take(&mut self.buffer));
        let handle = self.store(rows);
        self.ledger.spill_succeeded(handle);
    }

    fn push(&mut self, key: u32, value: u32, bytes: usize) {
        if self.ledger.plan_push(bytes).expect("push") == PushStep::SpillFirst {
            self.spill();
            while self.ledger.compaction_due().is_some() {
                let (_, group) = self.ledger.begin_compaction().expect("ordinal");
                let merged = merge(&mut self.files, &group);
                let handle = self.store(merged);
                self.ledger.compaction_succeeded(handle);
            }
        }
        self.buffer.push((key, value));
        self.ledger.record_push(bytes);
        self.max_runs_seen = self.max_runs_seen.max(self.files.len());
    }

    fn finish(mut self) -> Vec<u32> {
        let mut filter = DedupFilter::new(self.dedup);
        match self.ledger.plan_finish().expect("finish") {
            FinishStep::StreamBuffer => {
                return sorted_values(std::mem::take(&mut self.buffer), self.dedup);
            }
            FinishStep::SpillRemaining => self.spill(),
            FinishStep::MergeRuns => {}
        }
        let width = self.ledger.merge_width();
        let mut runs = self.ledger.take_runs();
        let runs = loop {
            let groups = match next_pass(runs, width) {
                CascadeStep::Final(rest) => break rest,
                CascadeStep::Pass(groups) => groups,
            };
            let mut next = Vec::new();
            for group in groups {
                assert!(group.len() <= width, "a merge opens more runs than the fan-in");
                if group.len() == 1 {
                    next.extend(group);
                    continue;
                }
                let merged = merge(&mut self.files, &group);
                next.push(self.store(merged));
            }
            runs = next;
        };
        assert!(runs.len() <= width);
        merge(&mut self.files, &runs)
            .into_iter()
            .filter(|&(k, _)| filter.keep(k))
            .map(|(_, v)| v)
            .collect()
    }
}

fn run(plan: SortPlan, dedup: bool, keys: &[u32]) -> Vec<u32> {
    let mut session = Session::new(plan, dedup);
    for &k in keys {
        session.push(k, k, 100);
    }
    session.finish()
}

#[test]
fn in_memory_sorts_ascending() {
    let out = run(SortPlan::InMemory, false, &[5, 3, 9, 1, 4, 1, 8]);
    assert_eq!(out, vec![1, 1, 3, 4, 5, 8, 9]);
}

#[test]
fn external_without_spill_sorts_ascending() {
    let plan = SortPlan::External {
        run_buffer_bytes: 1 << 20,
        max_fan_in: 4,
    };
    let out = run(plan, false, &[7, 2, 7, 0, 5]);
    assert_eq!(out, vec![0, 2, 5, 7, 7]);
}

#[test]
fn external_cascade_many_runs_small_fan_in() {
    let plan = SortPlan::External {
        run_buffer_bytes: 1,
        max_fan_in: 3,
    };
    let keys: Vec<u32> = (0..200u32).rev().collect();
    let out = run(plan, false, &keys);
    let expected: Vec<u32> = (0..200u32).collect();
    assert_eq!(out, expected);
}

#[test]
fn external_cascade_fan_in_two_is_stable() {
    let plan = SortPlan::External {
        run_buffer_bytes: 1,
        max_fan_in: 2,
    };
    let keys: Vec<u32> = (0..64u32).map(|i| (i * 7) % 13).collect();
    let mut expected = keys.clone();
    expected.sort_unstable();
    let out = run(plan, false, &keys);
    assert_eq!(out, expected);
}

#[test]
fn dedup_in_memory_collapses_equal_keys() {
    let out = run(SortPlan::InMemory, true, &[3, 3, 1, 1, 1, 2]);
    assert_eq!(out, vec![1, 2, 3]);
}

#[test]
fn empty_input_yields_empty_stream() {
    let plan = SortPlan::External {
        run_buffer_bytes: 1,
        max_fan_in: 3,
    };
    assert_eq!(run(plan, false, &[]), Vec::<u32>::new());
}

#[test]
fn spill_frontier_stays_bounded_and_preserves_first_equal_row() {
    for max_fan_in in [2, 3, 7] {
        for dedup in [false, true] {
            let mut session = Session::new(
                SortPlan::External {
                    run_buffer_bytes: 1,
                    max_fan_in,
                },
                dedup,
            );
            for sequence in 0..257u32 {
                session.push(sequence % 7, sequence, 1);
                assert!(session.ledger.run_count() <= 64, "spill metadata grows with input");
                assert!(session.files.len() <= 64, "spill files grow with input before finish");
            }
            assert!(session.max_runs_seen <= 64);
            let output = session.finish();
            let mut expected = Vec::new();
            for key in 0..7u32 {
                for sequence in (key..257).step_by(7) {
                    expected.push(sequence);
                    if dedup {
                        break;
                    }
                }
            }
            assert_eq!(output, expected);
        }
    }
}

#[test]
fn dedup_collapses_equal_keys_across_runs() {
    let plan = SortPlan::External {
        run_buffer_bytes: 1,
        max_fan_in: 3,
    };
    let keys = [4u32, 1, 4, 1, 2, 2, 2, 0, 4];
    let out = run(plan, true, &keys);
    assert_eq!(out, vec![0, 1, 2, 4]);
}
