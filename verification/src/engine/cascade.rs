//! Planning one pass of the cascade merge. When a sort holds more runs than
//! may be open at once, a pass folds consecutive groups of at most `width`
//! runs into one run each, keeping the groups in run order so that equal
//! keys keep their order across passes; passes repeat until at most `width`
//! runs remain for the final, streamed merge.

use vstd::prelude::*;

verus! {

broadcast use Seq::lemma_flatten_push;

/// The contents of each group, as sequences.
pub open spec fn group_views<R>(groups: Seq<Vec<R>>) -> Seq<Seq<R>> {
    groups.map_values(|g: Vec<R>| g@)
}

/// Whether `groups` is a pass over `runs` with merge width `width`: the
/// groups hold the runs in order, each group holds between one and `width`
/// runs, and every group but the last holds exactly `width`.
pub open spec fn is_pass_over<R>(groups: Seq<Vec<R>>, runs: Seq<R>, width: int) -> bool {
    &&& group_views(groups).flatten() == runs
    &&& forall|i: int| 0 <= i < groups.len() ==> 0 < #[trigger] groups[i]@.len() <= width
    &&& forall|i: int| 0 <= i < groups.len() - 1 ==> #[trigger] groups[i]@.len() == width
}

/// Split `runs` into one cascade pass of groups of at most `width` runs,
/// in run order. A pass over more than `width` runs (with `width >= 2`)
/// always yields fewer groups than runs, so the cascade terminates.
pub fn split_into_groups<R>(runs: Vec<R>, width: usize) -> (groups: Vec<Vec<R>>)
    requires
        width >= 1,
    ensures
        is_pass_over(groups@, runs@, width as int),
        groups@.len() == 0 <==> runs@.len() == 0,
        groups@.len() > 0 ==> (groups@.len() - 1) * width < runs@.len() <= groups@.len() * width,
        runs@.len() > width >= 2 ==> groups@.len() < runs@.len(),
{
    let ghost original = runs@;
    let mut groups: Vec<Vec<R>> = Vec::new();
    let mut rest = runs;
    while rest.len() > 0
        invariant
            width >= 1,
            original == runs@,
            group_views(groups@).flatten() + rest@ == original,
            forall|i: int| 0 <= i < groups@.len() ==> #[trigger] groups@[i]@.len() == width,
            groups@.len() * width + rest@.len() == original.len(),
        decreases rest@.len(),
    {
        let take = if width < rest.len() {
            width
        } else {
            rest.len()
        };
        let tail = rest.split_off(take);
        let ghost before = groups@;
        let ghost group = rest@;
        if tail.len() == 0 && take < width {
            groups.push(rest);
            rest = tail;
            proof {
                assert(group_views(groups@) =~= group_views(before).push(group));
                assert(group_views(groups@).flatten() == original);
                assert forall|i: int| 0 <= i < groups@.len() - 1 implies #[trigger] groups@[i]@.len()
                    == width by {
                    assert(before[i] == groups@[i]);
                }
                assert(is_pass_over(groups@, original, width as int));
                let g = groups@.len() as int;
                assert((g - 1) * width + group.len() == original.len());
                assert((g - 1) * width < original.len() <= g * width) by (nonlinear_arith)
                    requires
                        (g - 1) * width + group.len() == original.len(),
                        0 < group.len() < width,
                ;
                if original.len() > width && width >= 2 {
                    assert(g < original.len()) by (nonlinear_arith)
                        requires
                            (g - 1) * width < original.len(),
                            width >= 2,
                            original.len() > width,
                            g >= 1,
                    ;
                }
            }
            return groups;
        }
        groups.push(rest);
        rest = tail;
        proof {
            assert(group_views(groups@) =~= group_views(before).push(group));
            assert(group_views(groups@).flatten() =~= group_views(before).flatten() + group);
            assert forall|i: int| 0 <= i < groups@.len() implies #[trigger] groups@[i]@.len() == width
                by {
                if i < before.len() {
                    assert(before[i] == groups@[i]);
                }
            }
            assert(groups@.len() * width == before.len() * width + width) by (nonlinear_arith)
                requires
                    groups@.len() == before.len() + 1,
            ;
        }
    }
    proof {
        assert(rest@ =~= Seq::<R>::empty());
        assert(group_views(groups@).flatten() =~= original);
        let g = groups@.len() as int;
        assert(g * width == original.len());
        if g > 0 {
            assert((g - 1) * width < original.len()) by (nonlinear_arith)
                requires
                    g * width == original.len(),
                    width >= 1,
            ;
            if original.len() > width && width >= 2 {
                assert(g < original.len()) by (nonlinear_arith)
                    requires
                        g * width == original.len(),
                        width >= 2,
                        g >= 1,
                ;
            }
        } else {
            assert(original.len() == 0) by (nonlinear_arith)
                requires
                    g * width == original.len(),
                    g == 0,
            ;
        }
    }
    groups
}

/// The next step of a cascade: either a pass over the runs, or the final
/// merge of the runs that remain.
pub enum CascadeStep<R> {
    /// More runs remain than may be open at once: fold each group into one
    /// run (a group of a single run is carried over as it is).
    Pass(Vec<Vec<R>>),
    /// At most the merge width remain: merge them into the output.
    Final(Vec<R>),
}

/// Decide the next cascade step over `runs` with merge width `width`.
/// Every merge the cascade asks for reads at most `width` runs: a pass's
/// groups hold at most `width` runs, the final merge reads at most `width`,
/// and each pass leaves fewer runs than it was given.
pub fn next_pass<R>(runs: Vec<R>, width: usize) -> (step: CascadeStep<R>)
    requires
        width >= 2,
    ensures
        step is Final <==> runs@.len() <= width,
        step matches CascadeStep::Final(rest) ==> rest@ == runs@ && rest@.len() <= width,
        step matches CascadeStep::Pass(groups) ==> {
            &&& is_pass_over(groups@, runs@, width as int)
            &&& groups@.len() < runs@.len()
            &&& forall|i: int| 0 <= i < groups@.len() ==> #[trigger] groups@[i]@.len() <= width
        },
{
    if runs.len() <= width {
        CascadeStep::Final(runs)
    } else {
        CascadeStep::Pass(split_into_groups(runs, width))
    }
}

} // verus!
