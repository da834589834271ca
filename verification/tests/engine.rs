//! The engine's decisions: naming, run framing, the spill ledger and the
//! cascade pass planner.

use sort_governor::engine::cascade::split_into_groups;
use sort_governor::engine::frame::{
    decode_frame_len, decode_run_header, encode_run_header, frame_row, RunCursor,
};
use sort_governor::engine::ledger::{FinishStep, PushStep, SpillLedger};
use sort_governor::engine::naming::{
    fresh_scratch_dir_name, merge_file_name, run_file_name, scratch_dir_name,
};
use sort_governor::{SortPlan, SorterError};

#[test]
fn names_are_zero_padded() {
    assert_eq!(scratch_dir_name(0), "sort-00000000000000000000");
    assert_eq!(scratch_dir_name(42), "sort-00000000000000000042");
    assert_eq!(scratch_dir_name(u64::MAX), "sort-18446744073709551615");
    assert_eq!(run_file_name(7), "run-000007.cbor");
    assert_eq!(run_file_name(1_234_567), "run-1234567.cbor");
    assert_eq!(merge_file_name(2, 31), "merge-002-00031.cbor");
    assert_eq!(merge_file_name(1000, 123_456), "merge-1000-123456.cbor");
    assert_ne!(scratch_dir_name(1), scratch_dir_name(10));
}

#[test]
fn fresh_scratch_names_are_uuid_shaped_and_distinct() {
    let a = fresh_scratch_dir_name();
    let b = fresh_scratch_dir_name();
    assert!(a.starts_with("sort-"));
    assert_eq!(a.len(), 41);
    assert_eq!(&a[13..14], "-");
    assert_eq!(&a[19..20], "4");
    assert!(matches!(&a[24..25], "8" | "9" | "a" | "b"));
    assert_ne!(a, b);
}

#[test]
fn run_header_round_trips() {
    for count in [0u64, 1, 257, u64::MAX] {
        let header = encode_run_header(count);
        assert_eq!(header.len(), 8);
        assert_eq!(header, count.to_le_bytes().to_vec());
        assert_eq!(decode_run_header(&header), count);
    }
}

#[test]
fn frame_prefixes_the_length() {
    let framed = frame_row(&vec![0xaa, 0xbb, 0xcc]).expect("frame");
    assert_eq!(framed, vec![3, 0, 0, 0, 0xaa, 0xbb, 0xcc]);
    assert_eq!(decode_frame_len(&framed[..4]), 3);
    let empty = frame_row(&Vec::new()).expect("frame");
    assert_eq!(empty, vec![0, 0, 0, 0]);
    assert_eq!(decode_frame_len(&64u32.to_le_bytes()), 64);
}

#[test]
fn cursor_counts_down_to_the_end_of_a_run() {
    let mut cursor = RunCursor::new(2);
    assert!(cursor.has_next());
    cursor.row_read();
    assert!(cursor.has_next());
    cursor.row_read();
    assert!(!cursor.has_next());
}

fn external(run_buffer_bytes: usize, max_fan_in: u32) -> SortPlan {
    SortPlan::External { run_buffer_bytes, max_fan_in }
}

/// Push one row through the ledger, spilling and compacting as it asks.
/// Runs are named by their ordinal; merged runs by 1000 + ordinal.
fn push(ledger: &mut SpillLedger<u32>, bytes: usize) -> Result<(), SorterError> {
    if ledger.plan_push(bytes)? == PushStep::SpillFirst {
        let ordinal = ledger.begin_spill()?;
        ledger.spill_succeeded(ordinal);
        while ledger.compaction_due().is_some() {
            let (ordinal, group) = ledger.begin_compaction()?;
            assert_eq!(group.len(), ledger.merge_width());
            ledger.compaction_succeeded(1000 + ordinal);
        }
    }
    ledger.record_push(bytes);
    Ok(())
}

#[test]
fn in_memory_plan_never_spills() {
    let mut ledger: SpillLedger<u32> = SpillLedger::new(SortPlan::InMemory);
    for _ in 0..100 {
        assert_eq!(ledger.plan_push(1 << 30).expect("push"), PushStep::Buffer);
        ledger.record_push(1 << 30);
    }
    assert_eq!(ledger.run_count(), 0);
    assert_eq!(ledger.plan_finish().expect("finish"), FinishStep::StreamBuffer);
}

#[test]
fn external_plan_spills_when_the_buffer_would_overflow() {
    let mut ledger: SpillLedger<u32> = SpillLedger::new(external(250, 4));
    // The first row always buffers, even when it alone exceeds the buffer.
    assert_eq!(ledger.plan_push(1000).expect("push"), PushStep::Buffer);
    ledger.record_push(1000);
    assert_eq!(ledger.plan_push(1).expect("push"), PushStep::SpillFirst);
    push(&mut ledger, 1).expect("push");
    assert_eq!(ledger.run_count(), 1);
    // 1 + 100 + 100 = 201 fits; one more 100 would not.
    push(&mut ledger, 100).expect("push");
    push(&mut ledger, 100).expect("push");
    assert_eq!(ledger.run_count(), 1);
    assert_eq!(ledger.plan_push(100).expect("push"), PushStep::SpillFirst);
    // A zero estimate still counts one byte.
    let mut tiny: SpillLedger<u32> = SpillLedger::new(external(1, 4));
    tiny.record_push(0);
    assert_eq!(tiny.plan_push(0).expect("push"), PushStep::SpillFirst);
}

#[test]
fn external_without_spill_streams_the_buffer() {
    let mut ledger: SpillLedger<u32> = SpillLedger::new(external(1 << 20, 4));
    for _ in 0..5 {
        push(&mut ledger, 100).expect("push");
    }
    assert_eq!(ledger.run_count(), 0);
    assert_eq!(ledger.plan_finish().expect("finish"), FinishStep::StreamBuffer);
}

#[test]
fn ledger_frontier_stays_bounded_over_many_spills() {
    for max_fan_in in [2u32, 3, 7] {
        let mut ledger: SpillLedger<u32> = SpillLedger::new(external(1, max_fan_in));
        for _ in 0..257 {
            push(&mut ledger, 1).expect("push");
            assert!(ledger.run_count() <= 64, "spill frontier grows with input");
        }
        assert_eq!(ledger.plan_finish().expect("finish"), FinishStep::SpillRemaining);
        let ordinal = ledger.begin_spill().expect("final spill");
        ledger.spill_succeeded(ordinal);
        assert_eq!(ledger.plan_finish().expect("finish"), FinishStep::MergeRuns);
        let runs = ledger.take_runs();
        assert!(!runs.is_empty());
        assert_eq!(ledger.run_count(), 0);
    }
}

#[test]
fn compaction_merges_the_youngest_runs_in_order() {
    let mut ledger: SpillLedger<u32> = SpillLedger::new(external(1, 2));
    ledger.record_push(1);
    for expected in 0..3u32 {
        assert_eq!(ledger.plan_push(1).expect("push"), PushStep::SpillFirst);
        let ordinal = ledger.begin_spill().expect("spill");
        ledger.spill_succeeded(ordinal);
        if expected == 1 {
            // Runs 0 and 1 share level 0: merge them, oldest first.
            let (merged, group) = ledger.begin_compaction().expect("compaction");
            assert_eq!(group, vec![0, 1]);
            assert_eq!(merged, 2);
            ledger.compaction_succeeded(100);
        }
        ledger.record_push(1);
    }
    let ordinal = ledger.begin_spill().expect("spill");
    ledger.spill_succeeded(ordinal);
    assert_eq!(ledger.take_runs(), vec![100, 3, 4]);
}

#[test]
fn failed_spill_cannot_be_retried_or_finished() {
    let mut ledger: SpillLedger<u32> = SpillLedger::new(external(1, 2));
    ledger.record_push(1);
    assert_eq!(ledger.plan_push(1).expect("push"), PushStep::SpillFirst);
    ledger.begin_spill().expect("ordinal");
    ledger.spill_failed();
    assert!(ledger.has_failed());
    assert!(matches!(ledger.plan_push(1), Err(SorterError::Poisoned)));
    assert!(matches!(ledger.plan_finish(), Err(SorterError::Poisoned)));
}

#[test]
fn failed_compaction_poisons_the_session() {
    let mut ledger: SpillLedger<u32> = SpillLedger::new(external(1, 2));
    ledger.record_push(1);
    for _ in 0..2 {
        ledger.plan_push(1).expect("push");
        let ordinal = ledger.begin_spill().expect("spill");
        ledger.spill_succeeded(ordinal);
        if ledger.compaction_due().is_none() {
            ledger.record_push(1);
        }
    }
    assert_eq!(ledger.compaction_due(), Some(0));
    ledger.begin_compaction().expect("compaction");
    ledger.compaction_failed();
    assert!(matches!(ledger.plan_finish(), Err(SorterError::Poisoned)));
}

#[test]
fn cascade_groups_runs_in_order() {
    let groups = split_into_groups((0..7u32).collect::<Vec<_>>(), 3);
    assert_eq!(groups, vec![vec![0, 1, 2], vec![3, 4, 5], vec![6]]);
    let groups = split_into_groups((0..6u32).collect::<Vec<_>>(), 2);
    assert_eq!(groups.len(), 3);
    assert!(split_into_groups(Vec::<u32>::new(), 4).is_empty());
    // Passes shrink the run count until it fits the width.
    let mut runs: Vec<u32> = (0..200).collect();
    let mut passes = 0;
    while runs.len() > 3 {
        let groups = split_into_groups(runs, 3);
        assert!(groups.iter().all(|g| !g.is_empty() && g.len() <= 3));
        runs = groups.into_iter().map(|g| g[0]).collect();
        passes += 1;
    }
    assert_eq!(passes, 4);
}

use sort_governor::engine::merge::{DedupFilter, MergeFront};

/// Merge `runs` (each sorted by key) through the front, as a session does.
fn merge_runs(runs: Vec<Vec<(u32, u32)>>) -> Vec<(u32, u32)> {
    let mut readers: Vec<std::vec::IntoIter<(u32, u32)>> =
        runs.into_iter().map(|r| r.into_iter()).collect();
    let heads = readers.iter_mut().map(|r| r.next()).collect();
    let mut front = MergeFront::new(heads);
    let mut out = Vec::new();
    while let Some(idx) = front.next_source() {
        let row = front.take_head(idx);
        front.refill(idx, readers[idx].next());
        out.push(row);
    }
    out
}

#[test]
fn merge_front_emits_in_key_order_ties_in_run_order() {
    let out = merge_runs(vec![
        vec![(1, 0), (3, 1), (5, 2)],
        vec![(1, 10), (2, 11), (5, 12)],
        vec![],
        vec![(0, 30), (5, 31)],
    ]);
    assert_eq!(
        out,
        vec![(0, 30), (1, 0), (1, 10), (2, 11), (3, 1), (5, 2), (5, 12), (5, 31)]
    );
}

#[test]
fn merge_front_of_exhausted_runs_has_no_next() {
    let front: MergeFront<u32, u32> = MergeFront::new(vec![None, None]);
    assert_eq!(front.next_source(), None);
    assert_eq!(front.width(), 2);
}

#[test]
fn dedup_keeps_the_first_row_of_each_key() {
    let mut filter = DedupFilter::new(true);
    let keys = [0u32, 1, 1, 2, 2, 2, 4, 4];
    let kept: Vec<bool> = keys.iter().map(|&k| filter.keep(k)).collect();
    assert_eq!(kept, vec![true, true, false, true, false, false, true, false]);
    let mut plain = DedupFilter::new(false);
    assert!(keys.iter().all(|&k| plain.keep(k)));
}

#[test]
fn dedup_collapses_equal_keys_across_merged_runs() {
    // Runs of one row each, as a one-byte run buffer produces them.
    let keys = [4u32, 1, 4, 1, 2, 2, 2, 0, 4];
    let runs: Vec<Vec<(u32, u32)>> = keys.iter().map(|&k| vec![(k, k)]).collect();
    let mut filter = DedupFilter::new(true);
    let out: Vec<u32> = merge_runs(runs)
        .into_iter()
        .filter(|&(k, _)| filter.keep(k))
        .map(|(_, v)| v)
        .collect();
    assert_eq!(out, vec![0, 1, 2, 4]);
}

use sort_governor::engine::merge::collapse_equal_keys;

#[test]
fn collapse_keeps_first_row_of_each_equal_key_run() {
    let rows = vec![(1u32, 'a'), (1, 'b'), (2, 'c'), (3, 'd'), (3, 'e'), (3, 'f')];
    assert_eq!(collapse_equal_keys(rows.clone(), true), vec!['a', 'c', 'd']);
    assert_eq!(collapse_equal_keys(rows, false), vec!['a', 'b', 'c', 'd', 'e', 'f']);
    assert!(collapse_equal_keys(Vec::<(u32, u32)>::new(), true).is_empty());
}
