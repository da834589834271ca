//! The whole k-way merge of sorted runs, as the merge front drives it: at
//! each step the run that holds the next source (the least head, ties to
//! the lowest run) gives up its head row. Over runs that are each sorted by
//! key, the rows come out in key order, each row exactly once, and the rows
//! of each key in the order of the runs read one after another.

use crate::engine::merge::{head_key, is_next_source, key_before, lawful_order, lemma_key_order};
use crate::engine::sort::{
    law_sort_is_stable, law_sort_orders_by_key, law_stable_sort_is_determined,
    lemma_no_rows_with_key, lemma_rows_with_key_concat, rows_with_key, same_key, sorted_by_key,
    stable_sort_spec,
};
use vstd::multiset::Multiset;
use vstd::prelude::*;
use vstd::seq_lib::lemma_multiset_commutative;

verus! {

broadcast use vstd::seq_lib::group_to_multiset_ensures;

/// The head row of each run, in run order: `None` for an exhausted run.
pub open spec fn run_heads<K, V>(runs: Seq<Seq<(K, V)>>) -> Seq<Option<(K, V)>> {
    Seq::new(runs.len(), |j: int| if runs[j].len() > 0 { Some(runs[j][0]) } else { None })
}

/// The rows of all runs, read one run after another in run order.
pub open spec fn all_rows<K, V>(runs: Seq<Seq<(K, V)>>) -> Seq<(K, V)>
    decreases runs.len(),
{
    if runs.len() == 0 {
        Seq::empty()
    } else {
        all_rows(runs.drop_last()) + runs.last()
    }
}

/// How many rows the runs still hold.
pub open spec fn rows_left<K, V>(runs: Seq<Seq<(K, V)>>) -> nat
    decreases runs.len(),
{
    if runs.len() == 0 {
        0
    } else {
        rows_left(runs.drop_last()) + runs.last().len()
    }
}

/// The runs after run `i` has given up its head row.
pub open spec fn take_head_of<K, V>(runs: Seq<Seq<(K, V)>>, i: int) -> Seq<Seq<(K, V)>> {
    runs.update(i, runs[i].drop_first())
}

/// Taking a head row leaves one row fewer in the runs.
pub proof fn lemma_take_head_leaves_one_row_less<K, V>(runs: Seq<Seq<(K, V)>>, i: int)
    requires
        0 <= i < runs.len(),
        runs[i].len() > 0,
    ensures
        rows_left(take_head_of(runs, i)) + 1 == rows_left(runs),
    decreases runs.len(),
{
    let after = take_head_of(runs, i);
    if i == runs.len() - 1 {
        assert(after.drop_last() =~= runs.drop_last());
    } else {
        lemma_take_head_leaves_one_row_less(runs.drop_last(), i);
        assert(after.drop_last() =~= take_head_of(runs.drop_last(), i));
    }
}

/// The rows in the order in which the merge front hands them out: while a
/// run holds the next source, its head row leaves and the merge goes on
/// over what remains.
pub open spec fn merged_rows<K: Ord, V>(runs: Seq<Seq<(K, V)>>) -> Seq<(K, V)>
    decreases rows_left(runs),
{
    if exists|i: int| is_next_source(run_heads(runs), i) {
        let i = choose|i: int| is_next_source(run_heads(runs), i);
        proof {
            lemma_take_head_leaves_one_row_less(runs, i);
        }
        seq![runs[i][0]] + merged_rows(take_head_of(runs, i))
    } else {
        Seq::empty()
    }
}

/// Law: at most one run holds the next source, so the merge front, which
/// names a run that holds it, has no choice to make.
pub proof fn law_next_source_is_unique<K: Ord, V>(heads: Seq<Option<(K, V)>>, i: int, j: int)
    requires
        is_next_source(heads, i),
        is_next_source(heads, j),
    ensures
        i == j,
{
    if i < j {
        assert(heads[i] is Some);
    } else if j < i {
        assert(heads[j] is Some);
    }
}

/// Law: one step of the merge. When run `i` holds the next source, the
/// merge hands out that run's head row and goes on over what remains.
pub proof fn law_merge_step<K: Ord, V>(runs: Seq<Seq<(K, V)>>, i: int)
    requires
        is_next_source(run_heads(runs), i),
    ensures
        merged_rows(runs) == seq![runs[i][0]] + merged_rows(take_head_of(runs, i)),
{
    let c = choose|c: int| is_next_source(run_heads(runs), c);
    law_next_source_is_unique(run_heads(runs), i, c);
}

/// No row of `s` has a key strictly before `k`.
pub open spec fn keys_at_least<K: Ord, V>(s: Seq<(K, V)>, k: K) -> bool {
    forall|t: int| 0 <= t < s.len() ==> !key_before(#[trigger] s[t].0, k)
}

proof fn lemma_next_source_exists<K: Ord, V>(heads: Seq<Option<(K, V)>>, j: int)
    requires
        lawful_order::<K>(),
        0 <= j < heads.len(),
        heads[j] is Some,
    ensures
        exists|i: int| is_next_source(heads, i),
    decreases heads.len(),
{
    let n = heads.len() - 1;
    let front = heads.drop_last();
    if exists|j2: int| 0 <= j2 < front.len() && front[j2] is Some {
        let j2 = choose|j2: int| 0 <= j2 < front.len() && front[j2] is Some;
        lemma_next_source_exists(front, j2);
        let i0 = choose|i: int| is_next_source(front, i);
        let best = head_key(heads[i0]);
        if heads[n] is Some && key_before(head_key(heads[n]), best) {
            let h = head_key(heads[n]);
            assert forall|m: int| 0 <= m < heads.len() && #[trigger] heads[m] is Some implies !key_before(
                head_key(heads[m]),
                h,
            ) by {
                lemma_key_order(h, h, h);
                if m < n {
                    assert(front[m] is Some);
                    lemma_key_order(head_key(heads[m]), best, h);
                    lemma_key_order(h, best, head_key(heads[m]));
                }
            }
            assert forall|m: int| 0 <= m < n && #[trigger] heads[m] is Some implies key_before(
                h,
                head_key(heads[m]),
            ) by {
                assert(front[m] is Some);
                lemma_key_order(h, best, head_key(heads[m]));
            }
            assert(is_next_source(heads, n));
        } else {
            assert forall|m: int| 0 <= m < heads.len() && #[trigger] heads[m] is Some implies !key_before(
                head_key(heads[m]),
                best,
            ) by {
                if m < n {
                    assert(front[m] is Some);
                }
            }
            assert forall|m: int| 0 <= m < i0 && #[trigger] heads[m] is Some implies key_before(
                best,
                head_key(heads[m]),
            ) by {
                assert(front[m] is Some);
            }
            assert(is_next_source(heads, i0));
        }
    } else {
        if j < n {
            assert(front[j] is Some);
        }
        let h = head_key(heads[n]);
        lemma_key_order(h, h, h);
        assert forall|m: int| 0 <= m < heads.len() && #[trigger] heads[m] is Some implies !key_before(
            head_key(heads[m]),
            h,
        ) by {
            if m < n {
                assert(front[m] is Some);
            }
        }
        assert forall|m: int| 0 <= m < n && #[trigger] heads[m] is Some implies key_before(
            h,
            head_key(heads[m]),
        ) by {
            assert(front[m] is Some);
        }
        assert(is_next_source(heads, n));
    }
}

proof fn lemma_merged_bounded<K: Ord, V>(runs: Seq<Seq<(K, V)>>, k: K)
    requires
        forall|j: int| 0 <= j < runs.len() ==> keys_at_least(#[trigger] runs[j], k),
    ensures
        keys_at_least(merged_rows(runs), k),
    decreases rows_left(runs),
{
    if exists|i: int| is_next_source(run_heads(runs), i) {
        let i = choose|i: int| is_next_source(run_heads(runs), i);
        let after = take_head_of(runs, i);
        lemma_take_head_leaves_one_row_less(runs, i);
        assert forall|j: int| 0 <= j < after.len() implies keys_at_least(#[trigger] after[j], k) by {
            if j == i {
                assert forall|t: int| 0 <= t < after[j].len() implies !key_before(
                    #[trigger] after[j][t].0,
                    k,
                ) by {
                    assert(after[j][t] == runs[i][t + 1]);
                }
            } else {
                assert(after[j] == runs[j]);
            }
        }
        lemma_merged_bounded(after, k);
        let rest = merged_rows(after);
        assert(merged_rows(runs) == seq![runs[i][0]] + rest);
        assert forall|t: int| 0 <= t < merged_rows(runs).len() implies !key_before(
            #[trigger] merged_rows(runs)[t].0,
            k,
        ) by {
            if t > 0 {
                assert(merged_rows(runs)[t] == rest[t - 1]);
            }
        }
    }
}

/// Law: under a lawful order, the merge of runs that are each sorted by
/// key hands its rows out in key order.
pub proof fn law_merge_orders_by_key<K: Ord, V>(runs: Seq<Seq<(K, V)>>)
    requires
        lawful_order::<K>(),
        forall|j: int| 0 <= j < runs.len() ==> sorted_by_key(#[trigger] runs[j]),
    ensures
        sorted_by_key(merged_rows(runs)),
    decreases rows_left(runs),
{
    if exists|i: int| is_next_source(run_heads(runs), i) {
        let i = choose|i: int| is_next_source(run_heads(runs), i);
        let heads = run_heads(runs);
        let x = runs[i][0];
        let after = take_head_of(runs, i);
        lemma_take_head_leaves_one_row_less(runs, i);
        assert forall|j: int| 0 <= j < after.len() implies sorted_by_key(#[trigger] after[j]) by {
            if j == i {
                assert forall|a: int, b: int| 0 <= a < b < after[j].len() implies !key_before(
                    #[trigger] after[j][b].0,
                    #[trigger] after[j][a].0,
                ) by {
                    assert(after[j][b] == runs[i][b + 1]);
                    assert(after[j][a] == runs[i][a + 1]);
                }
            } else {
                assert(after[j] == runs[j]);
            }
        }
        assert forall|j: int| 0 <= j < after.len() implies keys_at_least(#[trigger] after[j], x.0) by {
            if j == i {
                assert forall|t: int| 0 <= t < after[j].len() implies !key_before(
                    #[trigger] after[j][t].0,
                    x.0,
                ) by {
                    assert(after[j][t] == runs[i][t + 1]);
                    assert(!key_before(runs[i][t + 1].0, runs[i][0].0));
                }
            } else {
                assert(after[j] == runs[j]);
                assert forall|t: int| 0 <= t < after[j].len() implies !key_before(
                    #[trigger] after[j][t].0,
                    x.0,
                ) by {
                    assert(heads[j] is Some);
                    let h = runs[j][0];
                    assert(!key_before(h.0, x.0));
                    lemma_key_order(x.0, h.0, runs[j][t].0);
                    lemma_key_order(h.0, h.0, h.0);
                    if t > 0 {
                        assert(!key_before(runs[j][t].0, runs[j][0].0));
                    }
                }
            }
        }
        law_merge_orders_by_key(after);
        lemma_merged_bounded(after, x.0);
        let rest = merged_rows(after);
        let all = merged_rows(runs);
        assert(all == seq![x] + rest);
        assert forall|a: int, b: int| 0 <= a < b < all.len() implies !key_before(
            #[trigger] all[b].0,
            #[trigger] all[a].0,
        ) by {
            assert(all[b] == rest[b - 1]);
            if a > 0 {
                assert(all[a] == rest[a - 1]);
            }
        }
    }
}

proof fn lemma_all_rows_take_head<K, V>(runs: Seq<Seq<(K, V)>>, i: int)
    requires
        0 <= i < runs.len(),
        runs[i].len() > 0,
    ensures
        all_rows(runs).to_multiset() == all_rows(take_head_of(runs, i)).to_multiset().insert(
            runs[i][0],
        ),
    decreases runs.len(),
{
    let after = take_head_of(runs, i);
    let n = runs.len() - 1;
    lemma_multiset_commutative(all_rows(runs.drop_last()), runs.last());
    lemma_multiset_commutative(all_rows(after.drop_last()), after.last());
    if i == n {
        assert(after.drop_last() =~= runs.drop_last());
        assert(runs[i] =~= seq![runs[i][0]] + runs[i].drop_first());
        lemma_multiset_commutative(seq![runs[i][0]], runs[i].drop_first());
        assert(seq![runs[i][0]] =~= Seq::<(K, V)>::empty().push(runs[i][0]));
        assert(Seq::<(K, V)>::empty().to_multiset() =~= Multiset::empty());
        assert(all_rows(runs).to_multiset() =~= all_rows(after).to_multiset().insert(runs[i][0]));
    } else {
        lemma_all_rows_take_head(runs.drop_last(), i);
        assert(after.drop_last() =~= take_head_of(runs.drop_last(), i));
        assert(after.last() == runs.last());
        assert(all_rows(runs).to_multiset() =~= all_rows(after).to_multiset().insert(runs[i][0]));
    }
}

proof fn lemma_all_rows_of_empty_runs<K, V>(runs: Seq<Seq<(K, V)>>)
    requires
        forall|j: int| 0 <= j < runs.len() ==> (#[trigger] runs[j]).len() == 0,
    ensures
        all_rows(runs) == Seq::<(K, V)>::empty(),
    decreases runs.len(),
{
    if runs.len() > 0 {
        lemma_all_rows_of_empty_runs(runs.drop_last());
        assert(runs[runs.len() - 1].len() == 0);
        assert(all_rows(runs) =~= Seq::<(K, V)>::empty());
    }
}

/// Law: under a lawful order, the merge hands out every row of the runs,
/// each exactly as often as the runs hold it.
pub proof fn law_merge_keeps_rows<K: Ord, V>(runs: Seq<Seq<(K, V)>>)
    requires
        lawful_order::<K>(),
    ensures
        merged_rows(runs).to_multiset() == all_rows(runs).to_multiset(),
    decreases rows_left(runs),
{
    if exists|i: int| is_next_source(run_heads(runs), i) {
        let i = choose|i: int| is_next_source(run_heads(runs), i);
        let after = take_head_of(runs, i);
        let x = runs[i][0];
        lemma_take_head_leaves_one_row_less(runs, i);
        law_merge_keeps_rows(after);
        lemma_all_rows_take_head(runs, i);
        lemma_multiset_commutative(seq![x], merged_rows(after));
        assert(seq![x] =~= Seq::<(K, V)>::empty().push(x));
        assert(Seq::<(K, V)>::empty().to_multiset() =~= Multiset::empty());
        assert(merged_rows(runs).to_multiset() =~= all_rows(runs).to_multiset());
    } else {
        assert forall|j: int| 0 <= j < runs.len() implies (#[trigger] runs[j]).len() == 0 by {
            if runs[j].len() > 0 {
                assert(run_heads(runs)[j] is Some);
                lemma_next_source_exists(run_heads(runs), j);
            }
        }
        lemma_all_rows_of_empty_runs(runs);
        assert(merged_rows(runs) =~= Seq::<(K, V)>::empty());
    }
}

proof fn lemma_rows_with_key_single<K: Ord, V>(x: (K, V), k: K)
    ensures
        rows_with_key(seq![x], k) == (if same_key(x.0, k) {
            seq![x]
        } else {
            Seq::<(K, V)>::empty()
        }),
{
    let one = seq![x];
    assert(one.drop_last() =~= Seq::<(K, V)>::empty());
    assert(one.last() == x);
    assert(rows_with_key(one.drop_last(), k) == Seq::<(K, V)>::empty());
    assert(Seq::<(K, V)>::empty().push(x) =~= one);
}

proof fn lemma_no_rows_with_key_in_runs<K: Ord, V>(runs: Seq<Seq<(K, V)>>, k: K)
    requires
        forall|j: int, t: int|
            0 <= j < runs.len() && 0 <= t < runs[j].len() ==> !same_key(#[trigger] runs[j][t].0, k),
    ensures
        rows_with_key(all_rows(runs), k) == Seq::<(K, V)>::empty(),
    decreases runs.len(),
{
    if runs.len() > 0 {
        let n = runs.len() - 1;
        lemma_no_rows_with_key_in_runs(runs.drop_last(), k);
        assert forall|t: int| 0 <= t < runs.last().len() implies !same_key(
            #[trigger] runs.last()[t].0,
            k,
        ) by {
            assert(runs[n][t] == runs.last()[t]);
        }
        lemma_no_rows_with_key(runs.last(), k);
        lemma_rows_with_key_concat(all_rows(runs.drop_last()), runs.last(), k);
        assert(rows_with_key(all_rows(runs), k) =~= Seq::<(K, V)>::empty());
    }
}

proof fn lemma_all_rows_take_head_keyed<K: Ord, V>(runs: Seq<Seq<(K, V)>>, i: int, k: K)
    requires
        0 <= i < runs.len(),
        runs[i].len() > 0,
        same_key(runs[i][0].0, k) ==> forall|j: int, t: int|
            0 <= j < i && 0 <= t < runs[j].len() ==> !same_key(#[trigger] runs[j][t].0, k),
    ensures
        rows_with_key(all_rows(runs), k) == rows_with_key(seq![runs[i][0]], k) + rows_with_key(
            all_rows(take_head_of(runs, i)),
            k,
        ),
    decreases runs.len(),
{
    let after = take_head_of(runs, i);
    let n = runs.len() - 1;
    let x = runs[i][0];
    let front = runs.drop_last();
    lemma_rows_with_key_concat(all_rows(front), runs.last(), k);
    lemma_rows_with_key_concat(all_rows(after.drop_last()), after.last(), k);
    lemma_rows_with_key_single(x, k);
    if i == n {
        assert(after.drop_last() =~= front);
        assert(runs[i] =~= seq![x] + runs[i].drop_first());
        lemma_rows_with_key_concat(seq![x], runs[i].drop_first(), k);
        if same_key(x.0, k) {
            assert forall|j: int, t: int|
                0 <= j < front.len() && 0 <= t < front[j].len() implies !same_key(
                #[trigger] front[j][t].0,
                k,
            ) by {
                assert(front[j][t] == runs[j][t]);
            }
            lemma_no_rows_with_key_in_runs(front, k);
        }
        assert(rows_with_key(all_rows(runs), k) =~= rows_with_key(seq![x], k) + rows_with_key(
            all_rows(after),
            k,
        ));
    } else {
        assert(after.drop_last() =~= take_head_of(front, i));
        assert(after.last() == runs.last());
        assert forall|j: int, t: int|
            same_key(front[i][0].0, k) && 0 <= j < i && 0 <= t < front[j].len() implies !same_key(
            #[trigger] front[j][t].0,
            k,
        ) by {
            assert(front[j][t] == runs[j][t]);
        }
        lemma_all_rows_take_head_keyed(front, i, k);
        assert(rows_with_key(all_rows(runs), k) =~= rows_with_key(seq![x], k) + rows_with_key(
            all_rows(after),
            k,
        ));
    }
}

/// Law: under a lawful order, the merge of runs that are each sorted by
/// key is stable: for every key, its rows come out in the order of the
/// runs read one after another, so equal keys leave in run order and, within
/// a run, in the run's own order.
pub proof fn law_merge_is_stable<K: Ord, V>(runs: Seq<Seq<(K, V)>>, k: K)
    requires
        lawful_order::<K>(),
        forall|j: int| 0 <= j < runs.len() ==> sorted_by_key(#[trigger] runs[j]),
    ensures
        rows_with_key(merged_rows(runs), k) == rows_with_key(all_rows(runs), k),
    decreases rows_left(runs),
{
    if exists|i: int| is_next_source(run_heads(runs), i) {
        let i = choose|i: int| is_next_source(run_heads(runs), i);
        let heads = run_heads(runs);
        let x = runs[i][0];
        let after = take_head_of(runs, i);
        lemma_take_head_leaves_one_row_less(runs, i);
        assert forall|j: int| 0 <= j < after.len() implies sorted_by_key(#[trigger] after[j]) by {
            if j == i {
                assert forall|a: int, b: int| 0 <= a < b < after[j].len() implies !key_before(
                    #[trigger] after[j][b].0,
                    #[trigger] after[j][a].0,
                ) by {
                    assert(after[j][b] == runs[i][b + 1]);
                    assert(after[j][a] == runs[i][a + 1]);
                }
            } else {
                assert(after[j] == runs[j]);
            }
        }
        law_merge_is_stable(after, k);
        if same_key(x.0, k) {
            assert forall|j: int, t: int|
                0 <= j < i && 0 <= t < runs[j].len() implies !same_key(#[trigger] runs[j][t].0, k) by {
                assert(heads[j] is Some);
                let h = runs[j][0];
                assert(key_before(x.0, h.0));
                lemma_key_order(h.0, h.0, h.0);
                if t > 0 {
                    assert(!key_before(runs[j][t].0, runs[j][0].0));
                }
                lemma_key_order(x.0, h.0, runs[j][t].0);
                lemma_key_order(k, x.0, runs[j][t].0);
            }
        }
        lemma_all_rows_take_head_keyed(runs, i, k);
        lemma_rows_with_key_concat(seq![x], merged_rows(after), k);
    } else {
        assert forall|j: int| 0 <= j < runs.len() implies (#[trigger] runs[j]).len() == 0 by {
            if runs[j].len() > 0 {
                assert(run_heads(runs)[j] is Some);
                lemma_next_source_exists(run_heads(runs), j);
            }
        }
        lemma_all_rows_of_empty_runs(runs);
        assert(merged_rows(runs) =~= Seq::<(K, V)>::empty());
    }
}

/// Law: under a lawful order, merging runs that are each sorted by key
/// gives exactly the stable sort of their rows read one run after another:
/// the merge of the spilled runs hands out what sorting the whole input at
/// once would.
pub proof fn law_merge_is_the_stable_sort<K: Ord, V>(runs: Seq<Seq<(K, V)>>)
    requires
        lawful_order::<K>(),
        forall|j: int| 0 <= j < runs.len() ==> sorted_by_key(#[trigger] runs[j]),
    ensures
        merged_rows(runs) == stable_sort_spec(all_rows(runs)),
{
    law_merge_orders_by_key(runs);
    assert forall|k: K| #[trigger] rows_with_key(merged_rows(runs), k) == rows_with_key(
        all_rows(runs),
        k,
    ) by {
        law_merge_is_stable(runs, k);
    }
    law_stable_sort_is_determined(all_rows(runs), merged_rows(runs));
}

/// Each piece of rows sorted stably by key, as a spill sorts its buffer.
pub open spec fn sorted_pieces<K: Ord, V>(pieces: Seq<Seq<(K, V)>>) -> Seq<Seq<(K, V)>> {
    pieces.map_values(|p: Seq<(K, V)>| stable_sort_spec(p))
}

proof fn lemma_sorted_pieces_keep_keyed_rows<K: Ord, V>(pieces: Seq<Seq<(K, V)>>, k: K)
    requires
        lawful_order::<K>(),
    ensures
        rows_with_key(all_rows(sorted_pieces(pieces)), k) == rows_with_key(all_rows(pieces), k),
    decreases pieces.len(),
{
    if pieces.len() > 0 {
        let front = pieces.drop_last();
        lemma_sorted_pieces_keep_keyed_rows(front, k);
        assert(sorted_pieces(pieces).drop_last() =~= sorted_pieces(front));
        lemma_rows_with_key_concat(all_rows(sorted_pieces(front)), stable_sort_spec(pieces.last()), k);
        lemma_rows_with_key_concat(all_rows(front), pieces.last(), k);
        law_sort_is_stable(pieces.last(), k);
    }
}

/// Law: under a lawful order, when the rows are cut into pieces in push
/// order, each piece is sorted stably into a run, and the runs are merged,
/// the result is the stable sort of all the rows in push order. A merged
/// group of consecutive runs is itself such a run, so this holds through
/// every compaction and cascade pass.
pub proof fn law_spilled_runs_merge_to_the_sort<K: Ord, V>(pieces: Seq<Seq<(K, V)>>)
    requires
        lawful_order::<K>(),
    ensures
        merged_rows(sorted_pieces(pieces)) == stable_sort_spec(all_rows(pieces)),
{
    let runs = sorted_pieces(pieces);
    assert forall|j: int| 0 <= j < runs.len() implies sorted_by_key(#[trigger] runs[j]) by {
        law_sort_orders_by_key(pieces[j]);
    }
    law_merge_is_the_stable_sort(runs);
    law_sort_orders_by_key(all_rows(runs));
    assert forall|k: K| #[trigger] rows_with_key(stable_sort_spec(all_rows(runs)), k) == rows_with_key(
        all_rows(pieces),
        k,
    ) by {
        law_sort_is_stable(all_rows(runs), k);
        lemma_sorted_pieces_keep_keyed_rows(pieces, k);
    }
    law_stable_sort_is_determined(all_rows(pieces), stable_sort_spec(all_rows(runs)));
}

proof fn lemma_all_rows_concat<K, V>(a: Seq<Seq<(K, V)>>, b: Seq<Seq<(K, V)>>)
    ensures
        all_rows(a + b) == all_rows(a) + all_rows(b),
    decreases b.len(),
{
    if b.len() == 0 {
        assert(a + b =~= a);
        assert(all_rows(a) + all_rows(b) =~= all_rows(a));
    } else {
        lemma_all_rows_concat(a, b.drop_last());
        assert((a + b).drop_last() =~= a + b.drop_last());
        assert((a + b).last() == b.last());
        assert(all_rows(a + b) =~= all_rows(a) + all_rows(b));
    }
}

proof fn lemma_all_rows_of_groups<K, V>(groups: Seq<Seq<Seq<(K, V)>>>)
    ensures
        all_rows(groups.map_values(|g: Seq<Seq<(K, V)>>| all_rows(g))) == all_rows(groups.flatten()),
    decreases groups.len(),
{
    if groups.len() > 0 {
        let front = groups.drop_last();
        lemma_all_rows_of_groups(front);
        assert(groups =~= front.push(groups.last()));
        front.lemma_flatten_push(groups.last());
        lemma_all_rows_concat(front.flatten(), groups.last());
        assert(groups.map_values(|g: Seq<Seq<(K, V)>>| all_rows(g)).drop_last() =~= front.map_values(
            |g: Seq<Seq<(K, V)>>| all_rows(g),
        ));
    } else {
        assert(groups.map_values(|g: Seq<Seq<(K, V)>>| all_rows(g)) =~= Seq::<Seq<(K, V)>>::empty());
        assert(groups.flatten() =~= Seq::<Seq<(K, V)>>::empty());
    }
}

/// Law: a cascade pass keeps the output. When the runs hold `pieces` of
/// the input, each sorted stably, and a pass folds consecutive groups of
/// them (the groups read in order give back the pieces), each folded run
/// holds its group's rows sorted stably, and the final merge of the folded
/// runs is still the stable sort of all the rows. Applied pass by pass,
/// the cascade as a whole hands out the stable sort of the input.
pub proof fn law_cascade_pass_keeps_the_sort<K: Ord, V>(
    pieces: Seq<Seq<(K, V)>>,
    groups: Seq<Seq<Seq<(K, V)>>>,
)
    requires
        lawful_order::<K>(),
        groups.flatten() == pieces,
    ensures
        forall|g: int|
            0 <= g < groups.len() ==> merged_rows(sorted_pieces(#[trigger] groups[g]))
                == stable_sort_spec(all_rows(groups[g])),
        merged_rows(sorted_pieces(groups.map_values(|g: Seq<Seq<(K, V)>>| all_rows(g))))
            == stable_sort_spec(all_rows(pieces)),
{
    assert forall|g: int| 0 <= g < groups.len() implies merged_rows(sorted_pieces(#[trigger] groups[g]))
        == stable_sort_spec(all_rows(groups[g])) by {
        law_spilled_runs_merge_to_the_sort(groups[g]);
    }
    let folded = groups.map_values(|g: Seq<Seq<(K, V)>>| all_rows(g));
    law_spilled_runs_merge_to_the_sort(folded);
    lemma_all_rows_of_groups(groups);
}

} // verus!
