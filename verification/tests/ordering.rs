//! Sorting a run buffer, planning cascade steps, the output stream's
//! end-of-stream protocol and scratch-directory naming.

use sort_governor::engine::cascade::{next_pass, CascadeStep};
use sort_governor::engine::naming::scratch_dir_name_for_token;
use sort_governor::engine::sort::{sort_rows_by_key, sorted_values};
use sort_governor::engine::stream::{output_step, OutputAction, OutputEvent, OutputPhase};

#[test]
fn sort_rows_orders_by_key() {
    let rows: Vec<(u32, u32)> = [5, 3, 9, 1, 4, 1, 8].iter().map(|&k| (k, k)).collect();
    let keys: Vec<u32> = sort_rows_by_key(rows).into_iter().map(|(k, _)| k).collect();
    assert_eq!(keys, vec![1, 1, 3, 4, 5, 8, 9]);
}

#[test]
fn sort_rows_keeps_equal_keys_in_push_order() {
    let rows = vec![(2u32, 'a'), (1, 'b'), (2, 'c'), (1, 'd'), (0, 'e'), (2, 'f'), (1, 'g')];
    let sorted = sort_rows_by_key(rows);
    assert_eq!(
        sorted,
        vec![(0, 'e'), (1, 'b'), (1, 'd'), (1, 'g'), (2, 'a'), (2, 'c'), (2, 'f')]
    );
}

#[test]
fn sort_rows_of_all_equal_keys_is_the_identity() {
    let rows: Vec<(u8, u32)> = (0..100).map(|v| (7, v)).collect();
    assert_eq!(sort_rows_by_key(rows.clone()), rows);
}

#[test]
fn sort_rows_of_empty_and_single() {
    assert_eq!(sort_rows_by_key(Vec::<(u32, u32)>::new()), vec![]);
    assert_eq!(sort_rows_by_key(vec![(3u32, 4u32)]), vec![(3, 4)]);
}

#[test]
fn sort_rows_of_a_long_descending_buffer() {
    let rows: Vec<(u64, u64)> = (0..1000u64).rev().map(|k| (k / 3, k)).collect();
    let sorted = sort_rows_by_key(rows);
    assert_eq!(sorted.len(), 1000);
    for pair in sorted.windows(2) {
        assert!(pair[0].0 <= pair[1].0);
        if pair[0].0 == pair[1].0 {
            // Pushed in descending value order, so equal keys keep it.
            assert!(pair[0].1 > pair[1].1);
        }
    }
}

#[test]
fn sorted_values_with_and_without_dedup() {
    let rows: Vec<(u32, u32)> = vec![(3, 30), (3, 31), (1, 10), (1, 11), (1, 12), (2, 20)];
    assert_eq!(sorted_values(rows.clone(), false), vec![10, 11, 12, 20, 30, 31]);
    assert_eq!(sorted_values(rows, true), vec![10, 20, 30]);
}

#[test]
fn next_pass_merges_finally_at_most_width_runs() {
    match next_pass(vec![1u32, 2, 3, 4], 4) {
        CascadeStep::Final(rest) => assert_eq!(rest, vec![1, 2, 3, 4]),
        CascadeStep::Pass(_) => panic!("four runs fit a width of four"),
    }
    match next_pass(Vec::<u32>::new(), 2) {
        CascadeStep::Final(rest) => assert!(rest.is_empty()),
        CascadeStep::Pass(_) => panic!("no runs need no pass"),
    }
}

#[test]
fn next_pass_groups_runs_beyond_the_width() {
    match next_pass(vec![1u32, 2, 3, 4, 5, 6, 7], 3) {
        CascadeStep::Pass(groups) => {
            assert_eq!(groups, vec![vec![1, 2, 3], vec![4, 5, 6], vec![7]]);
        }
        CascadeStep::Final(_) => panic!("seven runs exceed a width of three"),
    }
}

#[test]
fn cascade_steps_never_open_more_than_the_width() {
    let width = 3;
    let mut runs: Vec<u32> = (0..40).collect();
    let mut passes = 0;
    let finals = loop {
        let groups = match next_pass(runs, width) {
            CascadeStep::Final(rest) => break rest,
            CascadeStep::Pass(groups) => groups,
        };
        passes += 1;
        runs = groups
            .into_iter()
            .map(|g| {
                assert!(g.len() <= width);
                g[0]
            })
            .collect();
    };
    assert!(finals.len() <= width);
    assert_eq!(passes, 3);
}

fn drive(events: &[OutputEvent]) -> Vec<OutputAction> {
    let mut phase = OutputPhase::Merging;
    let mut actions = Vec::new();
    for &event in events {
        let (next, action) = output_step(phase, event);
        phase = next;
        actions.push(action);
    }
    actions
}

#[test]
fn output_stream_yields_rows_then_cleans_up_and_ends() {
    let actions = drive(&[
        OutputEvent::Poll,
        OutputEvent::RowRead,
        OutputEvent::Poll,
        OutputEvent::RunsExhausted,
        OutputEvent::CleanupSucceeded,
        OutputEvent::Poll,
    ]);
    assert_eq!(actions, vec![
        OutputAction::ReadRow,
        OutputAction::YieldValue,
        OutputAction::ReadRow,
        OutputAction::CleanUp,
        OutputAction::End,
        OutputAction::End,
    ]);
}

#[test]
fn output_stream_reports_a_read_error_once_then_cleans_up() {
    let actions = drive(&[
        OutputEvent::Poll,
        OutputEvent::ReadFailed,
        OutputEvent::Poll,
        OutputEvent::CleanupSucceeded,
        OutputEvent::Poll,
    ]);
    assert_eq!(actions, vec![
        OutputAction::ReadRow,
        OutputAction::YieldError,
        OutputAction::CleanUp,
        OutputAction::End,
        OutputAction::End,
    ]);
}

#[test]
fn output_stream_reports_a_failed_cleanup_then_ends() {
    let actions = drive(&[
        OutputEvent::Poll,
        OutputEvent::RunsExhausted,
        OutputEvent::CleanupFailed,
        OutputEvent::Poll,
        OutputEvent::Poll,
    ]);
    assert_eq!(actions, vec![
        OutputAction::ReadRow,
        OutputAction::CleanUp,
        OutputAction::YieldError,
        OutputAction::End,
        OutputAction::End,
    ]);
}

#[test]
fn scratch_dir_name_prefixes_the_token() {
    let token = "67e55044-10b1-426f-9247-bb680e5fe0c8";
    assert_eq!(
        scratch_dir_name_for_token(token),
        "sort-67e55044-10b1-426f-9247-bb680e5fe0c8"
    );
}

fn merge_with_front(runs: Vec<Vec<(u32, char)>>) -> Vec<(u32, char)> {
    let mut readers: Vec<std::vec::IntoIter<(u32, char)>> =
        runs.into_iter().map(|r| r.into_iter()).collect();
    let heads = readers.iter_mut().map(|r| r.next()).collect();
    let mut front = sort_governor::engine::merge::MergeFront::new(heads);
    let mut out = Vec::new();
    while let Some(idx) = front.next_source() {
        out.push(front.take_head(idx));
        front.refill(idx, readers[idx].next());
    }
    out
}

#[test]
fn merging_sorted_pieces_gives_the_sort_of_the_whole() {
    let pieces = vec![
        vec![(3, 'a'), (1, 'b'), (3, 'c')],
        vec![(2, 'd'), (1, 'e')],
        vec![(3, 'f'), (0, 'g'), (2, 'h'), (1, 'i')],
    ];
    let whole: Vec<(u32, char)> = pieces.iter().flatten().copied().collect();
    let runs: Vec<Vec<(u32, char)>> = pieces.into_iter().map(sort_rows_by_key).collect();
    let merged = merge_with_front(runs);
    assert_eq!(merged, sort_rows_by_key(whole));
    assert_eq!(
        merged,
        vec![
            (0, 'g'),
            (1, 'b'),
            (1, 'e'),
            (1, 'i'),
            (2, 'd'),
            (2, 'h'),
            (3, 'a'),
            (3, 'c'),
            (3, 'f'),
        ]
    );
}

#[test]
fn dedup_keeps_the_first_pushed_row_of_each_key() {
    let rows = vec![(2u32, 'a'), (1, 'b'), (2, 'c'), (1, 'd'), (0, 'e')];
    assert_eq!(sorted_values(rows, true), vec!['e', 'b', 'a']);
}
