//! The decisions of the k-way merge over spilled runs: which run's head row
//! leaves next, and, when equal keys are collapsed, which rows survive.
//!
//! The front holds the current head row of each open run, in run order. The
//! next row is the least head, ties going to the lowest run index, so rows
//! with equal keys leave in run order (runs are numbered in creation order,
//! and a merged run takes the place of the runs it folds). The caller reads
//! each run and refills its head; the front never touches a file.

use core::cmp::Ordering;
use vstd::laws_cmp::{
    obeys_cmp, obeys_cmp_ord, obeys_cmp_partial_ord, obeys_partial_cmp_spec_properties,
};
use vstd::laws_eq::obeys_eq_spec_properties;
use vstd::prelude::*;
use vstd::std_specs::cmp::{OrdSpec, PartialEqSpec, PartialOrdSpec};

verus! {

/// The key of a head row.
pub open spec fn head_key<K, V>(head: Option<(K, V)>) -> K {
    head.unwrap().0
}

/// The key type's order is lawful: a total order consistent with its
/// equality, as for every integer type.
pub open spec fn lawful_order<K: Ord>() -> bool {
    obeys_cmp::<K>()
}

/// `a` orders strictly before `b` under the key type's order.
pub open spec fn key_before<K: Ord>(a: K, b: K) -> bool {
    a.cmp_spec(&b) == Ordering::Less
}

/// Whether run `i` holds the next row of `heads`: it has a head, no head
/// orders strictly before it, and it orders strictly before every head of
/// a lower-numbered run (ties go to the lowest run).
pub open spec fn is_next_source<K: Ord, V>(heads: Seq<Option<(K, V)>>, i: int) -> bool {
    &&& 0 <= i < heads.len()
    &&& heads[i] is Some
    &&& forall|j: int|
        0 <= j < heads.len() && #[trigger] heads[j] is Some ==> !key_before(
            head_key(heads[j]),
            head_key(heads[i]),
        )
    &&& forall|j: int|
        0 <= j < i && #[trigger] heads[j] is Some ==> key_before(head_key(heads[i]), head_key(heads[j]))
}

pub(crate) proof fn lemma_lawful_order_is_specified<K: Ord>()
    requires
        lawful_order::<K>(),
    ensures
        K::obeys_cmp_spec(),
{
    reveal(obeys_cmp_ord);
}

proof fn lemma_before_facts<K: Ord>(x: K, b: K, j: K)
    requires
        obeys_cmp::<K>(),
    ensures
        !key_before(x, x),
        key_before(x, b) ==> !key_before(b, x),
        !key_before(x, b) && key_before(j, b) ==> key_before(j, x),
{
    reveal(obeys_partial_cmp_spec_properties);
    reveal(obeys_cmp_ord);
    reveal(obeys_eq_spec_properties);
    assert(x.partial_cmp_spec(&x) == Some(x.cmp_spec(&x)));
    assert(x.partial_cmp_spec(&b) == Some(x.cmp_spec(&b)));
    assert(b.partial_cmp_spec(&x) == Some(b.cmp_spec(&x)));
    assert(j.partial_cmp_spec(&b) == Some(j.cmp_spec(&b)));
    assert(b.partial_cmp_spec(&j) == Some(b.cmp_spec(&j)));
    assert(j.partial_cmp_spec(&x) == Some(j.cmp_spec(&x)));
    assert(x.partial_cmp_spec(&j) == Some(x.cmp_spec(&j)));
    if !key_before(x, b) && key_before(j, b) {
        assert(b.cmp_spec(&j) == Ordering::Greater);
        match x.cmp_spec(&b) {
            Ordering::Greater => {
                assert(x.cmp_spec(&j) == Ordering::Greater);
            },
            Ordering::Equal => {
                assert(x.eq_spec(&b));
                match j.cmp_spec(&x) {
                    Ordering::Equal => {
                        assert(j.eq_spec(&x));
                        assert(j.eq_spec(&b));
                    },
                    Ordering::Greater => {
                        assert(x.cmp_spec(&j) == Ordering::Less);
                        assert(x.cmp_spec(&b) == Ordering::Less);
                    },
                    Ordering::Less => {},
                }
            },
            Ordering::Less => {},
        }
    }
}

/// Under a lawful order, "strictly before" is irreflexive and asymmetric,
/// and "not after" chains with itself and with "strictly before".
pub(crate) proof fn lemma_key_order<K: Ord>(a: K, b: K, c: K)
    requires
        lawful_order::<K>(),
    ensures
        !key_before(a, a),
        key_before(a, b) ==> !key_before(b, a),
        !key_before(b, a) && !key_before(c, b) ==> !key_before(c, a),
        !key_before(b, a) && key_before(b, c) ==> key_before(a, c),
        key_before(a, b) && !key_before(c, b) ==> key_before(a, c),
{
    reveal(obeys_partial_cmp_spec_properties);
    reveal(obeys_cmp_ord);
    reveal(obeys_eq_spec_properties);
    assert(a.partial_cmp_spec(&a) == Some(a.cmp_spec(&a)));
    assert(a.partial_cmp_spec(&b) == Some(a.cmp_spec(&b)));
    assert(b.partial_cmp_spec(&a) == Some(b.cmp_spec(&a)));
    assert(b.partial_cmp_spec(&c) == Some(b.cmp_spec(&c)));
    assert(c.partial_cmp_spec(&b) == Some(c.cmp_spec(&b)));
    assert(a.partial_cmp_spec(&c) == Some(a.cmp_spec(&c)));
    assert(c.partial_cmp_spec(&a) == Some(c.cmp_spec(&a)));
}

/// Under a lawful order, two keys are equal exactly when neither orders
/// strictly before the other.
pub(crate) proof fn lemma_equal_keys<K: Ord>(a: K, b: K)
    requires
        lawful_order::<K>(),
    ensures
        a.eq_spec(&b) <==> (!key_before(a, b) && !key_before(b, a)),
{
    reveal(obeys_partial_cmp_spec_properties);
    reveal(obeys_cmp_ord);
    reveal(obeys_eq_spec_properties);
    reveal(obeys_cmp_partial_ord);
    assert(a.partial_cmp_spec(&b) == Some(a.cmp_spec(&b)));
    assert(b.partial_cmp_spec(&a) == Some(b.cmp_spec(&a)));
}

/// Whether `a` orders strictly before `b`, by the key type's `Ord`.
pub(crate) fn orders_before<K: Ord>(a: &K, b: &K) -> (r: bool)
    ensures
        K::obeys_cmp_spec() ==> r == key_before(*a, *b),
{
    match a.cmp(b) {
        Ordering::Less => true,
        Ordering::Equal => false,
        Ordering::Greater => false,
    }
}

/// Law: rows with equal keys leave in run order. When run `i` holds the
/// next row, no lower-numbered run holds a head with an equal key (under a
/// lawful order), so among equal keys the lowest run always goes first.
pub proof fn law_ties_leave_in_run_order<K: Ord, V>(heads: Seq<Option<(K, V)>>, i: int, j: int)
    requires
        lawful_order::<K>(),
        is_next_source(heads, i),
        0 <= j < i,
        heads[j] is Some,
    ensures
        head_key(heads[j]).cmp_spec(&head_key(heads[i])) != Ordering::Equal,
{
    reveal(obeys_partial_cmp_spec_properties);
    reveal(obeys_cmp_ord);
    let a = head_key(heads[i]);
    let b = head_key(heads[j]);
    assert(key_before(a, b));
    assert(a.partial_cmp_spec(&b) == Some(a.cmp_spec(&b)));
    assert(b.partial_cmp_spec(&a) == Some(b.cmp_spec(&a)));
}

/// The head rows of the runs being merged, in run order.
pub struct MergeFront<K, V> {
    heads: Vec<Option<(K, V)>>,
}

impl<K, V> View for MergeFront<K, V> {
    type V = Seq<Option<(K, V)>>;

    closed spec fn view(&self) -> Seq<Option<(K, V)>> {
        self.heads@
    }
}

impl<K: Ord, V> MergeFront<K, V> {
    /// A front over the first rows of the runs, in run order (`None` for a
    /// run that is empty).
    pub fn new(heads: Vec<Option<(K, V)>>) -> (f: Self)
        ensures
            f@ == heads@,
    {
        MergeFront { heads }
    }

    /// The number of runs in the merge.
    pub fn width(&self) -> (n: usize)
        ensures
            n == self@.len(),
    {
        self.heads.len()
    }

    /// The run whose head leaves next: the least head, ties going to the
    /// lowest run; `None` once every run is exhausted.
    pub fn next_source(&self) -> (next: Option<usize>)
        ensures
            next is None <==> forall|j: int| 0 <= j < self@.len() ==> #[trigger] self@[j] is None,
            next matches Some(i) ==> i < self@.len() && self@[i as int] is Some,
            lawful_order::<K>() ==> (next matches Some(i) ==> is_next_source(self@, i as int)),
    {
        let heads = &self.heads;
        let mut best: Option<usize> = None;
        let mut j: usize = 0;
        while j < heads.len()
            invariant
                j <= heads@.len(),
                heads@ == self@,
                best is None <==> forall|k: int| 0 <= k < j ==> #[trigger] heads@[k] is None,
                best matches Some(b) ==> b < j && heads@[b as int] is Some,
                lawful_order::<K>() ==> (best matches Some(b) ==> {
                    &&& forall|k: int|
                        0 <= k < j && #[trigger] heads@[k] is Some ==> !key_before(
                            head_key(heads@[k]),
                            head_key(heads@[b as int]),
                        )
                    &&& forall|k: int|
                        0 <= k < b && #[trigger] heads@[k] is Some ==> key_before(
                            head_key(heads@[b as int]),
                            head_key(heads@[k]),
                        )
                }),
            decreases heads@.len() - j,
        {
            if let Some((key, _)) = &heads[j] {
                match best {
                    None => {
                        best = Some(j);
                        proof {
                            if lawful_order::<K>() {
                                lemma_before_facts(*key, *key, *key);
                            }
                        }
                    },
                    Some(b) => {
                        let current = &heads[b];
                        if let Some((best_key, _)) = current {
                            if orders_before(key, best_key) {
                                proof {
                                    if lawful_order::<K>() {
                                        lemma_lawful_order_is_specified::<K>();
                                        assert(key_before(*key, *best_key));
                                        assert forall|k: int|
                                            0 <= k < j + 1 && #[trigger] heads@[k] is Some implies !key_before(
                                            head_key(heads@[k]),
                                            *key,
                                        ) by {
                                            let kk = head_key(heads@[k]);
                                            lemma_before_facts(kk, *best_key, *key);
                                            lemma_before_facts(*key, kk, *key);
                                        }
                                        assert forall|k: int|
                                            0 <= k < j && #[trigger] heads@[k] is Some implies key_before(
                                            *key,
                                            head_key(heads@[k]),
                                        ) by {
                                            let kk = head_key(heads@[k]);
                                            lemma_before_facts(kk, *best_key, *key);
                                        }
                                    }
                                }
                                best = Some(j);
                            } else {
                                proof {
                                    if lawful_order::<K>() {
                                        lemma_lawful_order_is_specified::<K>();
                                        assert(!key_before(*key, *best_key));
                                    }
                                }
                            }
                        }
                    },
                }
            }
            j = j + 1;
        }
        best
    }

    /// Take the head row of run `i`, leaving the run without a head until
    /// it is refilled.
    pub fn take_head(&mut self, i: usize) -> (row: (K, V))
        requires
            i < old(self)@.len(),
            old(self)@[i as int] is Some,
        ensures
            row == old(self)@[i as int]->0,
            final(self)@ == old(self)@.update(i as int, None),
    {
        let mut slot: Option<(K, V)> = None;
        std::mem::swap(&mut slot, &mut self.heads[i]);
        match slot {
            Some(row) => row,
            None => vstd::pervasive::unreached(),
        }
    }

    /// Give run `i` its next head row (`None` once the run is exhausted).
    pub fn refill(&mut self, i: usize, head: Option<(K, V)>)
        requires
            i < old(self)@.len(),
        ensures
            final(self)@ == old(self)@.update(i as int, head),
    {
        self.heads.set(i, head);
    }
}

/// Collapses equal keys when a sort dedups: a row survives unless its key
/// equals the key of the last row that survived, so the first row of every
/// run of equal keys is the one kept.
pub struct DedupFilter<K> {
    dedup: bool,
    last: Option<K>,
}

impl<K> View for DedupFilter<K> {
    type V = (bool, Option<K>);

    /// Whether the filter collapses, and the key of the last surviving row.
    closed spec fn view(&self) -> (bool, Option<K>) {
        (self.dedup, self.last)
    }
}

impl<K: PartialEq> DedupFilter<K> {
    /// A filter that collapses equal keys exactly when `dedup`.
    pub fn new(dedup: bool) -> (f: Self)
        ensures
            f@ == (dedup, None::<K>),
    {
        DedupFilter { dedup, last: None }
    }

    /// Whether the row with key `key` survives. Without dedup every row
    /// survives and nothing is remembered; with dedup a row survives unless
    /// its key equals the last surviving key, and a surviving key becomes
    /// the last one.
    pub fn keep(&mut self, key: K) -> (survives: bool)
        ensures
            !old(self)@.0 ==> survives && final(self)@ == old(self)@,
            K::obeys_eq_spec() && old(self)@.0 ==> survives == !(old(self)@.1 matches Some(l)
                && l.eq_spec(&key)),
            old(self)@.0 ==> final(self)@ == (if survives {
                (true, Some(key))
            } else {
                old(self)@
            }),
    {
        if !self.dedup {
            return true;
        }
        let repeated = match &self.last {
            Some(last) => *last == key,
            None => false,
        };
        if repeated {
            false
        } else {
            self.last = Some(key);
            true
        }
    }
}

/// The values that survive collapsing equal keys in `rows`, in order,
/// together with the key of the last surviving row (tracked only when
/// collapsing): a row survives unless collapsing is on and its key equals
/// the key of the last row that survived.
pub open spec fn collapse_spec<K: PartialEq, V>(rows: Seq<(K, V)>, dedup: bool) -> (Seq<V>, Option<K>)
    decreases rows.len(),
{
    if rows.len() == 0 {
        (Seq::empty(), None)
    } else {
        let (prev, last) = collapse_spec(rows.drop_last(), dedup);
        let (key, value) = rows.last();
        if dedup && (last matches Some(l) && l.eq_spec(&key)) {
            (prev, last)
        } else {
            (prev.push(value), if dedup {
                Some(key)
            } else {
                last
            })
        }
    }
}

/// The values of `rows` in order, collapsing rows with equal keys to the
/// first of each run of equal keys when `dedup` (the rows of a sorted
/// buffer, as the in-memory path streams them).
pub fn collapse_equal_keys<K: PartialEq, V>(rows: Vec<(K, V)>, dedup: bool) -> (values: Vec<V>)
    ensures
        !dedup ==> values@ == rows@.map_values(|r: (K, V)| r.1),
        K::obeys_eq_spec() ==> values@ == collapse_spec(rows@, dedup).0,
{
    let ghost all = rows@;
    let mut filter = DedupFilter::new(dedup);
    let mut values: Vec<V> = Vec::new();
    for row in it: rows.into_iter()
        invariant
            it.seq() == all,
            !dedup ==> values@ == all.take(it.index() as int).map_values(|r: (K, V)| r.1),
            K::obeys_eq_spec() ==> values@ == collapse_spec(all.take(it.index() as int), dedup).0,
            K::obeys_eq_spec() ==> filter@ == (dedup, collapse_spec(
                all.take(it.index() as int),
                dedup,
            ).1),
            filter@.0 == dedup,
            !dedup ==> filter@ == (dedup, None::<K>),
    {
        let ghost before = all.take(it.index() as int);
        let (key, value) = row;
        let survives = filter.keep(key);
        if survives {
            values.push(value);
        }
        proof {
            let after = all.take(it.index() as int + 1);
            assert(after.drop_last() =~= before);
        }
    }
    assert(all.take(all.len() as int) =~= all);
    values
}

} // verus!
