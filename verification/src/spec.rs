//! The caller's description of a sort job: what is being sorted and roughly
//! how big it is. The planner works against this, never against the rows.

use vstd::prelude::*;

verus! {

/// The fields of a [`SortSpec`] as plain values.
pub struct SortSpecView {
    pub estimated_rows: u64,
    pub estimated_bytes: u64,
    pub dedup: bool,
    pub label: Seq<char>,
}

/// A request to sort a relation, sized but not yet executed.
///
/// `estimated_rows` / `estimated_bytes` are the planner's only view of the
/// input magnitude; they need not be exact, but a gross under-estimate
/// pushes a large sort onto the in-memory path and a gross over-estimate
/// wastes spill buffers.
#[derive(Debug)]
pub struct SortSpec {
    estimated_rows: u64,
    estimated_bytes: u64,
    dedup: bool,
    label: &'static str,
}

impl View for SortSpec {
    type V = SortSpecView;

    closed spec fn view(&self) -> SortSpecView {
        SortSpecView {
            estimated_rows: self.estimated_rows,
            estimated_bytes: self.estimated_bytes,
            dedup: self.dedup,
            label: self.label@,
        }
    }
}

impl SortSpec {
    /// Describe a sort of `estimated_rows` rows totalling roughly
    /// `estimated_bytes` of key + value bytes, without dedup, labelled
    /// `"sort"`.
    pub fn new(estimated_rows: u64, estimated_bytes: u64) -> (s: Self)
        ensures
            s@ == (SortSpecView {
                estimated_rows,
                estimated_bytes,
                dedup: false,
                label: "sort"@,
            }),
    {
        SortSpec { estimated_rows, estimated_bytes, dedup: false, label: "sort" }
    }

    /// Request that equal-key rows be collapsed to one during the merge.
    pub fn with_dedup(self, dedup: bool) -> (s: Self)
        ensures
            s@ == (SortSpecView { dedup, ..self@ }),
    {
        SortSpec { dedup, ..self }
    }

    /// Attach a short static label used in tracing and statistics.
    pub fn labelled(self, label: &'static str) -> (s: Self)
        ensures
            s@ == (SortSpecView { label: label@, ..self@ }),
    {
        SortSpec { label, ..self }
    }

    /// Estimated number of rows to be sorted.
    pub fn estimated_rows(&self) -> (r: u64)
        ensures
            r == self@.estimated_rows,
    {
        self.estimated_rows
    }

    /// Estimated total key + value bytes to be sorted.
    pub fn estimated_bytes(&self) -> (r: u64)
        ensures
            r == self@.estimated_bytes,
    {
        self.estimated_bytes
    }

    /// Whether equal-key rows are collapsed during the merge.
    pub fn dedup(&self) -> (r: bool)
        ensures
            r == self@.dedup,
    {
        self.dedup
    }

    /// The short static label for tracing and stats.
    pub fn label(&self) -> (r: &'static str)
        ensures
            r@ == self@.label,
    {
        self.label
    }
}

impl Clone for SortSpec {
    fn clone(&self) -> (s: Self)
        ensures
            s@ == self@,
    {
        SortSpec {
            estimated_rows: self.estimated_rows,
            estimated_bytes: self.estimated_bytes,
            dedup: self.dedup,
            label: self.label,
        }
    }
}

} // verus!
