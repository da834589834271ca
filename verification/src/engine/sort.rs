//! Sorting a run buffer by key. The sort is stable: rows with equal keys
//! keep the order in which they were pushed, which is what lets the merge
//! and the dedup filter promise that the first pushed row of a key leaves
//! first.
//!
//! The sort is a top-down merge sort. `stable_sort_spec` states it over
//! sequences; the laws below show that its result holds the same rows,
//! is ordered by key, and keeps the rows of each key in their input order.

use crate::engine::merge::{
    collapse_equal_keys, collapse_spec, key_before, lawful_order, lemma_equal_keys,
    lemma_key_order, lemma_lawful_order_is_specified, orders_before,
};
use vstd::multiset::Multiset;
use vstd::prelude::*;
use vstd::seq_lib::lemma_multiset_commutative;

verus! {

broadcast use vstd::seq_lib::group_to_multiset_ensures;

/// The stable merge of `a` and `b`, each sorted by key: rows leave in key
/// order, and of two rows with equal keys the one from `a` leaves first.
/// It is stated from the back: the last row is the last of `b` unless the
/// last of `a` orders strictly after it.
pub open spec fn merge_spec<K: Ord, V>(a: Seq<(K, V)>, b: Seq<(K, V)>) -> Seq<(K, V)>
    decreases a.len() + b.len(),
{
    if a.len() == 0 {
        b
    } else if b.len() == 0 {
        a
    } else if key_before(b.last().0, a.last().0) {
        merge_spec(a.drop_last(), b).push(a.last())
    } else {
        merge_spec(a, b.drop_last()).push(b.last())
    }
}

/// The stable sort of `s` by key: a sequence of at most one row is sorted;
/// a longer one is split at its middle, each half is sorted, and the two
/// halves are merged stably, the first half taking ties.
pub open spec fn stable_sort_spec<K: Ord, V>(s: Seq<(K, V)>) -> Seq<(K, V)>
    decreases s.len(),
{
    if s.len() <= 1 {
        s
    } else {
        let mid: int = (s.len() / 2) as int;
        merge_spec(stable_sort_spec(s.take(mid)), stable_sort_spec(s.skip(mid)))
    }
}

/// No row of `s` has a key strictly after the key of an earlier row.
pub open spec fn sorted_by_key<K: Ord, V>(s: Seq<(K, V)>) -> bool {
    forall|i: int, j: int| 0 <= i < j < s.len() ==> !key_before(#[trigger] s[j].0, #[trigger] s[i].0)
}

/// Neither of `a` and `b` orders strictly before the other.
pub open spec fn same_key<K: Ord>(a: K, b: K) -> bool {
    !key_before(a, b) && !key_before(b, a)
}

/// The rows of `s` whose key is the same as `k`, in their order in `s`.
pub open spec fn rows_with_key<K: Ord, V>(s: Seq<(K, V)>, k: K) -> Seq<(K, V)>
    decreases s.len(),
{
    if s.len() == 0 {
        Seq::empty()
    } else if same_key(s.last().0, k) {
        rows_with_key(s.drop_last(), k).push(s.last())
    } else {
        rows_with_key(s.drop_last(), k)
    }
}

/// No row of `s` has a key strictly after `k`.
pub open spec fn keys_at_most<K: Ord, V>(s: Seq<(K, V)>, k: K) -> bool {
    forall|i: int| 0 <= i < s.len() ==> !key_before(k, #[trigger] s[i].0)
}

proof fn lemma_merge_rows_kept<K: Ord, V>(a: Seq<(K, V)>, b: Seq<(K, V)>)
    ensures
        merge_spec(a, b).to_multiset() == a.to_multiset().add(b.to_multiset()),
    decreases a.len() + b.len(),
{
    if a.len() == 0 {
        assert(a.to_multiset() =~= Multiset::empty());
        assert(merge_spec(a, b).to_multiset() =~= a.to_multiset().add(b.to_multiset()));
    } else if b.len() == 0 {
        assert(b.to_multiset() =~= Multiset::empty());
        assert(merge_spec(a, b).to_multiset() =~= a.to_multiset().add(b.to_multiset()));
    } else if key_before(b.last().0, a.last().0) {
        lemma_merge_rows_kept(a.drop_last(), b);
        assert(a =~= a.drop_last().push(a.last()));
        assert(merge_spec(a, b).to_multiset() =~= a.to_multiset().add(b.to_multiset()));
    } else {
        lemma_merge_rows_kept(a, b.drop_last());
        assert(b =~= b.drop_last().push(b.last()));
        assert(merge_spec(a, b).to_multiset() =~= a.to_multiset().add(b.to_multiset()));
    }
}

proof fn lemma_merge_bounded<K: Ord, V>(a: Seq<(K, V)>, b: Seq<(K, V)>, k: K)
    requires
        keys_at_most(a, k),
        keys_at_most(b, k),
    ensures
        keys_at_most(merge_spec(a, b), k),
    decreases a.len() + b.len(),
{
    if a.len() == 0 || b.len() == 0 {
    } else if key_before(b.last().0, a.last().0) {
        lemma_merge_bounded(a.drop_last(), b, k);
    } else {
        lemma_merge_bounded(a, b.drop_last(), k);
    }
}

proof fn lemma_merge_sorted<K: Ord, V>(a: Seq<(K, V)>, b: Seq<(K, V)>)
    requires
        lawful_order::<K>(),
        sorted_by_key(a),
        sorted_by_key(b),
    ensures
        sorted_by_key(merge_spec(a, b)),
    decreases a.len() + b.len(),
{
    if a.len() == 0 || b.len() == 0 {
    } else if key_before(b.last().0, a.last().0) {
        let x = a.last();
        let rest = a.drop_last();
        lemma_merge_sorted(rest, b);
        assert forall|i: int| 0 <= i < b.len() implies !key_before(x.0, #[trigger] b[i].0) by {
            lemma_key_order(b[i].0, b.last().0, x.0);
            lemma_key_order(x.0, b[i].0, x.0);
            if i < b.len() - 1 {
                assert(!key_before(b[b.len() - 1].0, b[i].0));
            }
        }
        assert forall|i: int| 0 <= i < rest.len() implies !key_before(x.0, #[trigger] rest[i].0) by {
            assert(!key_before(a[a.len() - 1].0, a[i].0));
        }
        lemma_merge_bounded(rest, b, x.0);
        let m = merge_spec(rest, b);
        assert forall|i: int, j: int| 0 <= i < j < m.push(x).len() implies !key_before(
            #[trigger] m.push(x)[j].0,
            #[trigger] m.push(x)[i].0,
        ) by {
            if j < m.len() {
                assert(!key_before(m[j].0, m[i].0));
            }
        }
    } else {
        let y = b.last();
        let rest = b.drop_last();
        lemma_merge_sorted(a, rest);
        assert forall|i: int| 0 <= i < a.len() implies !key_before(y.0, #[trigger] a[i].0) by {
            lemma_key_order(a[i].0, a.last().0, y.0);
            if i < a.len() - 1 {
                assert(!key_before(a[a.len() - 1].0, a[i].0));
            }
        }
        assert forall|i: int| 0 <= i < rest.len() implies !key_before(y.0, #[trigger] rest[i].0) by {
            assert(!key_before(b[b.len() - 1].0, b[i].0));
        }
        lemma_merge_bounded(a, rest, y.0);
        let m = merge_spec(a, rest);
        assert forall|i: int, j: int| 0 <= i < j < m.push(y).len() implies !key_before(
            #[trigger] m.push(y)[j].0,
            #[trigger] m.push(y)[i].0,
        ) by {
            if j < m.len() {
                assert(!key_before(m[j].0, m[i].0));
            }
        }
    }
}

pub(crate) proof fn lemma_rows_with_key_concat<K: Ord, V>(a: Seq<(K, V)>, b: Seq<(K, V)>, k: K)
    ensures
        rows_with_key(a + b, k) == rows_with_key(a, k) + rows_with_key(b, k),
    decreases b.len(),
{
    if b.len() == 0 {
        assert(a + b =~= a);
        assert(rows_with_key(a, k) + rows_with_key(b, k) =~= rows_with_key(a, k));
    } else {
        lemma_rows_with_key_concat(a, b.drop_last(), k);
        assert((a + b).drop_last() =~= a + b.drop_last());
        assert((a + b).last() == b.last());
        if same_key(b.last().0, k) {
            assert(rows_with_key(a + b, k) =~= rows_with_key(a, k) + rows_with_key(b, k));
        } else {
            assert(rows_with_key(a + b, k) =~= rows_with_key(a, k) + rows_with_key(b, k));
        }
    }
}

pub(crate) proof fn lemma_no_rows_with_key<K: Ord, V>(s: Seq<(K, V)>, k: K)
    requires
        forall|i: int| 0 <= i < s.len() ==> !same_key(#[trigger] s[i].0, k),
    ensures
        rows_with_key(s, k) == Seq::<(K, V)>::empty(),
    decreases s.len(),
{
    if s.len() > 0 {
        assert(!same_key(s[s.len() - 1].0, k));
        lemma_no_rows_with_key(s.drop_last(), k);
    }
}

proof fn lemma_merge_stable<K: Ord, V>(a: Seq<(K, V)>, b: Seq<(K, V)>, k: K)
    requires
        lawful_order::<K>(),
        sorted_by_key(a),
        sorted_by_key(b),
    ensures
        rows_with_key(merge_spec(a, b), k) == rows_with_key(a, k) + rows_with_key(b, k),
    decreases a.len() + b.len(),
{
    if a.len() == 0 {
        assert(rows_with_key(a, k) + rows_with_key(b, k) =~= rows_with_key(b, k));
    } else if b.len() == 0 {
        assert(rows_with_key(a, k) + rows_with_key(b, k) =~= rows_with_key(a, k));
    } else if key_before(b.last().0, a.last().0) {
        let x = a.last();
        lemma_merge_stable(a.drop_last(), b, k);
        let m = merge_spec(a.drop_last(), b);
        assert(merge_spec(a, b) == m.push(x));
        assert(m.push(x).drop_last() =~= m);
        if same_key(x.0, k) {
            assert forall|i: int| 0 <= i < b.len() implies !same_key(#[trigger] b[i].0, k) by {
                lemma_key_order(b[i].0, b.last().0, x.0);
                lemma_key_order(b[i].0, x.0, k);
                if i < b.len() - 1 {
                    assert(!key_before(b[b.len() - 1].0, b[i].0));
                }
            }
            lemma_no_rows_with_key(b, k);
        }
        assert(rows_with_key(merge_spec(a, b), k) =~= rows_with_key(a, k) + rows_with_key(b, k));
    } else {
        lemma_merge_stable(a, b.drop_last(), k);
        let m = merge_spec(a, b.drop_last());
        assert(merge_spec(a, b) == m.push(b.last()));
        assert(m.push(b.last()).drop_last() =~= m);
        assert(rows_with_key(merge_spec(a, b), k) =~= rows_with_key(a, k) + rows_with_key(b, k));
    }
}

/// Law: sorting keeps every row, each as often as it was given.
pub proof fn law_sort_keeps_rows<K: Ord, V>(s: Seq<(K, V)>)
    ensures
        stable_sort_spec(s).to_multiset() == s.to_multiset(),
    decreases s.len(),
{
    if s.len() > 1 {
        let mid: int = (s.len() / 2) as int;
        law_sort_keeps_rows(s.take(mid));
        law_sort_keeps_rows(s.skip(mid));
        lemma_merge_rows_kept(stable_sort_spec(s.take(mid)), stable_sort_spec(s.skip(mid)));
        lemma_multiset_commutative(s.take(mid), s.skip(mid));
        assert(s.take(mid) + s.skip(mid) =~= s);
    }
}

/// Law: under a lawful order, the sorted rows come in key order: no row
/// has a key strictly before the key of an earlier row.
pub proof fn law_sort_orders_by_key<K: Ord, V>(s: Seq<(K, V)>)
    requires
        lawful_order::<K>(),
    ensures
        sorted_by_key(stable_sort_spec(s)),
    decreases s.len(),
{
    if s.len() > 1 {
        let mid: int = (s.len() / 2) as int;
        law_sort_orders_by_key(s.take(mid));
        law_sort_orders_by_key(s.skip(mid));
        lemma_merge_sorted(stable_sort_spec(s.take(mid)), stable_sort_spec(s.skip(mid)));
    }
}

/// Law: under a lawful order, the sort is stable: for every key, the rows
/// with that key come out in the order in which they went in.
pub proof fn law_sort_is_stable<K: Ord, V>(s: Seq<(K, V)>, k: K)
    requires
        lawful_order::<K>(),
    ensures
        rows_with_key(stable_sort_spec(s), k) == rows_with_key(s, k),
    decreases s.len(),
{
    if s.len() > 1 {
        let mid: int = (s.len() / 2) as int;
        law_sort_is_stable(s.take(mid), k);
        law_sort_is_stable(s.skip(mid), k);
        law_sort_orders_by_key(s.take(mid));
        law_sort_orders_by_key(s.skip(mid));
        lemma_merge_stable(stable_sort_spec(s.take(mid)), stable_sort_spec(s.skip(mid)), k);
        lemma_rows_with_key_concat(s.take(mid), s.skip(mid), k);
        assert(s.take(mid) + s.skip(mid) =~= s);
    }
}

proof fn lemma_last_with_key_is_a_row<K: Ord, V>(s: Seq<(K, V)>, k: K)
    requires
        rows_with_key(s, k).len() > 0,
    ensures
        exists|p: int| 0 <= p < s.len() && s[p] == rows_with_key(s, k).last(),
    decreases s.len(),
{
    if s.len() > 0 && !same_key(s.last().0, k) {
        lemma_last_with_key_is_a_row(s.drop_last(), k);
        let p = choose|p: int|
            0 <= p < s.drop_last().len() && s.drop_last()[p] == rows_with_key(s.drop_last(), k).last();
        assert(s[p] == rows_with_key(s, k).last());
    } else if s.len() > 0 {
        assert(s[s.len() - 1] == rows_with_key(s, k).last());
    }
}

/// Law: under a lawful order, a sequence is determined by being sorted by
/// key and by the rows it holds for each key, in order. So any arrangement
/// of `s` that is in key order and keeps the rows of each key in their
/// order in `s` is exactly `stable_sort_spec(s)`.
pub proof fn law_stable_sort_is_determined<K: Ord, V>(s: Seq<(K, V)>, t: Seq<(K, V)>)
    requires
        lawful_order::<K>(),
        sorted_by_key(t),
        forall|k: K| #[trigger] rows_with_key(t, k) == rows_with_key(s, k),
    ensures
        t == stable_sort_spec(s),
{
    let u = stable_sort_spec(s);
    law_sort_orders_by_key(s);
    assert forall|k: K| #[trigger] rows_with_key(t, k) == rows_with_key(u, k) by {
        law_sort_is_stable(s, k);
    }
    lemma_sorted_determined(t, u);
}

proof fn lemma_sorted_determined<K: Ord, V>(s: Seq<(K, V)>, t: Seq<(K, V)>)
    requires
        lawful_order::<K>(),
        sorted_by_key(s),
        sorted_by_key(t),
        forall|k: K| #[trigger] rows_with_key(s, k) == rows_with_key(t, k),
    ensures
        s == t,
    decreases s.len() + t.len(),
{
    if s.len() == 0 && t.len() == 0 {
        assert(s =~= t);
    } else if s.len() == 0 {
        let y = t.last();
        lemma_key_order(y.0, y.0, y.0);
        assert(rows_with_key(t, y.0).len() > 0);
        assert(rows_with_key(s, y.0) == Seq::<(K, V)>::empty());
    } else if t.len() == 0 {
        let x = s.last();
        lemma_key_order(x.0, x.0, x.0);
        assert(rows_with_key(s, x.0).len() > 0);
        assert(rows_with_key(t, x.0) == Seq::<(K, V)>::empty());
    } else {
        let x = s.last();
        let y = t.last();
        lemma_key_order(x.0, x.0, x.0);
        lemma_key_order(y.0, y.0, y.0);
        assert(rows_with_key(s, x.0) == rows_with_key(s.drop_last(), x.0).push(x));
        assert(rows_with_key(t, y.0) == rows_with_key(t.drop_last(), y.0).push(y));
        assert(rows_with_key(t, x.0) == rows_with_key(s, x.0));
        assert(rows_with_key(s, y.0) == rows_with_key(t, y.0));
        lemma_last_with_key_is_a_row(t, x.0);
        lemma_last_with_key_is_a_row(s, y.0);
        let p = choose|p: int| 0 <= p < t.len() && t[p] == rows_with_key(t, x.0).last();
        let q = choose|q: int| 0 <= q < s.len() && s[q] == rows_with_key(s, y.0).last();
        assert(t[p] == x);
        assert(s[q] == y);
        if p < t.len() - 1 {
            assert(!key_before(t[t.len() - 1].0, t[p].0));
        }
        if q < s.len() - 1 {
            assert(!key_before(s[s.len() - 1].0, s[q].0));
        }
        assert(same_key(y.0, x.0));
        assert(rows_with_key(t, x.0) == rows_with_key(t.drop_last(), x.0).push(y));
        assert(x == y);
        assert forall|k: K| #[trigger] rows_with_key(s.drop_last(), k) == rows_with_key(
            t.drop_last(),
            k,
        ) by {
            assert(rows_with_key(s, k) == rows_with_key(t, k));
            if same_key(x.0, k) {
                assert(rows_with_key(s.drop_last(), k) == rows_with_key(s, k).drop_last());
                assert(rows_with_key(t.drop_last(), k) == rows_with_key(t, k).drop_last());
            }
        }
        lemma_sorted_determined(s.drop_last(), t.drop_last());
        assert(s =~= s.drop_last().push(x));
        assert(t =~= t.drop_last().push(y));
    }
}

/// The rows of `s` that open a run of equal keys: the first row, and each
/// row whose key is not the same as the key of the row just before it.
pub open spec fn first_of_each_key<K: Ord, V>(s: Seq<(K, V)>) -> Seq<(K, V)>
    decreases s.len(),
{
    if s.len() == 0 {
        Seq::empty()
    } else if s.len() > 1 && same_key(s[s.len() - 2].0, s.last().0) {
        first_of_each_key(s.drop_last())
    } else {
        first_of_each_key(s.drop_last()).push(s.last())
    }
}

proof fn lemma_same_key_chains<K: Ord>(a: K, b: K, c: K)
    requires
        lawful_order::<K>(),
        same_key(a, b),
    ensures
        same_key(a, c) <==> same_key(b, c),
{
    lemma_key_order(a, b, c);
    lemma_key_order(c, b, a);
    lemma_key_order(b, a, c);
    lemma_key_order(c, a, b);
}

/// Law: under a lawful order, collapsing equal keys keeps exactly the rows
/// that open a run of equal keys, and their values in order.
pub proof fn law_dedup_keeps_first_of_each_key<K: Ord, V>(s: Seq<(K, V)>)
    requires
        lawful_order::<K>(),
    ensures
        collapse_spec(s, true).0 == first_of_each_key(s).map_values(|r: (K, V)| r.1),
        s.len() == 0 ==> collapse_spec(s, true).1 is None,
        s.len() > 0 ==> (collapse_spec(s, true).1 matches Some(l) && same_key(l, s.last().0)),
    decreases s.len(),
{
    if s.len() > 0 {
        let front = s.drop_last();
        let key = s.last().0;
        law_dedup_keeps_first_of_each_key(front);
        lemma_key_order(key, key, key);
        if front.len() > 0 {
            let l = collapse_spec(front, true).1.unwrap();
            lemma_equal_keys(l, key);
            lemma_same_key_chains(l, front.last().0, key);
            assert(front.last() == s[s.len() - 2]);
        }
        assert(first_of_each_key(front).push(s.last()).map_values(|r: (K, V)| r.1)
            =~= first_of_each_key(front).map_values(|r: (K, V)| r.1).push(s.last().1));
    } else {
        assert(first_of_each_key(s).map_values(|r: (K, V)| r.1) =~= Seq::<V>::empty());
    }
}

proof fn lemma_first_of_key_in_sorted<K: Ord, V>(s: Seq<(K, V)>, k: K)
    requires
        lawful_order::<K>(),
        sorted_by_key(s),
    ensures
        rows_with_key(first_of_each_key(s), k) == (if rows_with_key(s, k).len() > 0 {
            seq![rows_with_key(s, k)[0]]
        } else {
            Seq::<(K, V)>::empty()
        }),
    decreases s.len(),
{
    if s.len() > 0 {
        let front = s.drop_last();
        let x = s.last();
        assert forall|a: int, b: int| 0 <= a < b < front.len() implies !key_before(
            #[trigger] front[b].0,
            #[trigger] front[a].0,
        ) by {
            assert(!key_before(s[b].0, s[a].0));
        }
        lemma_first_of_key_in_sorted(front, k);
        let firsts = first_of_each_key(front);
        if same_key(x.0, k) {
            if s.len() > 1 && same_key(s[s.len() - 2].0, x.0) {
                lemma_same_key_chains(x.0, s[s.len() - 2].0, k);
                lemma_key_order(x.0, x.0, x.0);
                assert(front.last() == s[s.len() - 2]);
                assert(rows_with_key(front, k).len() > 0);
            } else {
                if s.len() > 1 {
                    let p = s[s.len() - 2];
                    assert(!key_before(x.0, p.0));
                    assert forall|i: int| 0 <= i < front.len() implies !same_key(
                        #[trigger] front[i].0,
                        k,
                    ) by {
                        if i < front.len() - 1 {
                            assert(!key_before(p.0, s[i].0));
                        }
                        lemma_key_order(front[i].0, p.0, x.0);
                        lemma_key_order(p.0, p.0, x.0);
                        lemma_key_order(front[i].0, x.0, k);
                        lemma_key_order(k, front[i].0, k);
                    }
                    lemma_no_rows_with_key(front, k);
                }
                assert(firsts.push(x).drop_last() =~= firsts);
                assert(rows_with_key(firsts, k) =~= Seq::<(K, V)>::empty());
                assert(rows_with_key(s, k) == Seq::<(K, V)>::empty().push(x));
                assert(rows_with_key(first_of_each_key(s), k) =~= seq![x]);
            }
        } else {
            assert(firsts.push(x).drop_last() =~= firsts);
        }
    }
}

/// Law: under a lawful order, collapsing the stable sort of `rows` keeps,
/// for every key that occurs, exactly one row: the first row of that key
/// that was pushed.
pub proof fn law_dedup_keeps_first_pushed<K: Ord, V>(rows: Seq<(K, V)>, k: K)
    requires
        lawful_order::<K>(),
        rows_with_key(rows, k).len() > 0,
    ensures
        rows_with_key(first_of_each_key(stable_sort_spec(rows)), k) == seq![
            rows_with_key(rows, k)[0],
        ],
{
    law_sort_orders_by_key(rows);
    law_sort_is_stable(rows, k);
    lemma_first_of_key_in_sorted(stable_sort_spec(rows), k);
}

/// Merge `a` and `b` stably, taking rows from their backs.
fn merge_rows<K: Ord, V>(a: Vec<(K, V)>, b: Vec<(K, V)>) -> (merged: Vec<(K, V)>)
    ensures
        merged@.to_multiset() == a@.to_multiset().add(b@.to_multiset()),
        lawful_order::<K>() ==> merged@ == merge_spec(a@, b@),
{
    let ghost a0 = a@;
    let ghost b0 = b@;
    let mut a = a;
    let mut b = b;
    let mut reversed: Vec<(K, V)> = Vec::new();
    let ghost mut tail: Seq<(K, V)> = Seq::empty();
    while a.len() > 0 && b.len() > 0
        invariant
            reversed@.len() == tail.len(),
            forall|i: int| 0 <= i < tail.len() ==> #[trigger] reversed@[i] == tail[tail.len() - 1 - i],
            lawful_order::<K>() ==> merge_spec(a0, b0) == merge_spec(a@, b@) + tail,
            a0.to_multiset().add(b0.to_multiset()) == a@.to_multiset().add(
                b@.to_multiset(),
            ).add(tail.to_multiset()),
        decreases a@.len() + b@.len(),
    {
        let ghost a1 = a@;
        let ghost b1 = b@;
        let take_from_a = orders_before(&b[b.len() - 1].0, &a[a.len() - 1].0);
        let row = if take_from_a {
            a.pop()
        } else {
            b.pop()
        };
        match row {
            Some(row) => {
                proof {
                    if lawful_order::<K>() {
                        lemma_lawful_order_is_specified::<K>();
                        assert(merge_spec(a1, b1) == merge_spec(a@, b@).push(row));
                        assert(merge_spec(a@, b@).push(row) + tail =~= merge_spec(a@, b@) + (seq![
                            row,
                        ] + tail));
                    }
                    if take_from_a {
                        assert(a1 =~= a@.push(row));
                    } else {
                        assert(b1 =~= b@.push(row));
                    }
                    lemma_multiset_commutative(seq![row], tail);
                    assert(seq![row] =~= Seq::<(K, V)>::empty().push(row));
                    tail = seq![row] + tail;
                    assert(a0.to_multiset().add(b0.to_multiset()) =~= a@.to_multiset().add(
                        b@.to_multiset(),
                    ).add(tail.to_multiset()));
                }
                reversed.push(row);
            },
            None => {},
        }
    }
    let ghost rest0 = if a@.len() > 0 { a@ } else { b@ };
    let mut merged = if a.len() > 0 {
        a
    } else {
        b
    };
    let ghost whole = rest0 + tail;
    proof {
        if a@.len() > 0 {
            assert(b@.to_multiset() =~= Multiset::empty());
        } else {
            assert(a@.to_multiset() =~= Multiset::empty());
        }
        lemma_multiset_commutative(rest0, tail);
    }
    while reversed.len() > 0
        invariant
            merged@.len() + reversed@.len() == whole.len(),
            forall|i: int| 0 <= i < merged@.len() ==> #[trigger] merged@[i] == whole[i],
            forall|i: int|
                0 <= i < reversed@.len() ==> #[trigger] reversed@[i] == whole[whole.len() - 1 - i],
        decreases reversed@.len(),
    {
        match reversed.pop() {
            Some(row) => {
                merged.push(row);
            },
            None => {},
        }
    }
    proof {
        assert(merged@ =~= whole);
    }
    merged
}

/// Sort `rows` by key, stably: rows with equal keys keep their order. The
/// result holds the same rows; under a lawful order it is exactly
/// `stable_sort_spec(rows@)`, so it is in key order and keeps the rows of
/// each key in their input order.
pub fn sort_rows_by_key<K: Ord, V>(rows: Vec<(K, V)>) -> (sorted: Vec<(K, V)>)
    ensures
        sorted@.to_multiset() == rows@.to_multiset(),
        lawful_order::<K>() ==> sorted@ == stable_sort_spec(rows@),
        lawful_order::<K>() ==> sorted_by_key(sorted@),
        lawful_order::<K>() ==> forall|k: K| rows_with_key(sorted@, k) == rows_with_key(rows@, k),
    decreases rows@.len(),
{
    let ghost all = rows@;
    if rows.len() <= 1 {
        return rows;
    }
    let mut left = rows;
    let mid: usize = left.len() / 2;
    let right = left.split_off(mid);
    proof {
        assert(left@ =~= all.take(mid as int));
        assert(right@ =~= all.skip(mid as int));
    }
    let left_sorted = sort_rows_by_key(left);
    let right_sorted = sort_rows_by_key(right);
    let sorted = merge_rows(left_sorted, right_sorted);
    proof {
        lemma_multiset_commutative(all.take(mid as int), all.skip(mid as int));
        assert(all.take(mid as int) + all.skip(mid as int) =~= all);
        if lawful_order::<K>() {
            law_sort_orders_by_key(all);
            assert forall|k: K| rows_with_key(sorted@, k) == rows_with_key(all, k) by {
                law_sort_is_stable(all, k);
            }
        }
    }
    sorted
}

/// The values of an in-memory sort: the rows sorted stably by key and,
/// when `dedup`, collapsed to the first row of each run of equal keys.
pub fn sorted_values<K: Ord, V>(rows: Vec<(K, V)>, dedup: bool) -> (values: Vec<V>)
    ensures
        lawful_order::<K>() ==> values@ == collapse_spec(stable_sort_spec(rows@), dedup).0,
        lawful_order::<K>() && !dedup ==> values@ == stable_sort_spec(rows@).map_values(
            |r: (K, V)| r.1,
        ),
        lawful_order::<K>() && dedup ==> values@ == first_of_each_key(
            stable_sort_spec(rows@),
        ).map_values(|r: (K, V)| r.1),
{
    let ghost all = rows@;
    let sorted = sort_rows_by_key(rows);
    let values = collapse_equal_keys(sorted, dedup);
    proof {
        if lawful_order::<K>() {
            law_dedup_keeps_first_of_each_key(stable_sort_spec(all));
        }
    }
    values
}

} // verus!
