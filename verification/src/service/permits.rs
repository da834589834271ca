//! The accounting of the governor's descriptor permits. Each admitted
//! external sort has a lease entry from admission until its lease is
//! released; its permits count as held from the moment they are granted.
//! The permits available are always the total less the permits held by
//! granted, unreleased leases, and the active external sorts are exactly the
//! entries admitted and not yet released.

use vstd::prelude::*;

verus! {

/// One admitted external sort: its id, the permits it asks for, and whether
/// they have been granted.
#[derive(Debug, Clone, Copy, PartialEq, Eq, Structural)]
pub struct PermitLease {
    pub id: u64,
    pub permits: u32,
    pub granted: bool,
}

/// The permits held by the granted leases of `leases`.
pub open spec fn held_permits(leases: Seq<PermitLease>) -> int
    decreases leases.len(),
{
    if leases.len() == 0 {
        0
    } else {
        held_permits(leases.drop_last()) + if leases.last().granted {
            leases.last().permits as int
        } else {
            0
        }
    }
}

/// Whether lease `i` of `leases` has id `id`.
pub open spec fn lease_at(leases: Seq<PermitLease>, id: u64, i: int) -> bool {
    0 <= i < leases.len() && leases[i].id == id
}

/// Whether some lease of `leases` has id `id`.
pub open spec fn has_lease(leases: Seq<PermitLease>, id: u64) -> bool {
    exists|i: int| lease_at(leases, id, i)
}

/// The ledger as plain values.
pub struct PermitLedgerView {
    pub total: u32,
    pub available: u32,
    pub leases: Seq<PermitLease>,
}

impl PermitLedgerView {
    /// The permits not held by any granted lease.
    pub open spec fn free_permits(self) -> int {
        self.total - held_permits(self.leases)
    }

    /// The external sorts admitted and not yet released.
    pub open spec fn active(self) -> int {
        self.leases.len() as int
    }

    /// The ledger's invariant: lease ids are distinct, the granted leases
    /// hold no more than the total, the available count is the total less
    /// what they hold, and the active count fits a `u32`.
    pub open spec fn well_formed(self) -> bool {
        &&& self.available == self.free_permits()
        &&& forall|i: int, j: int|
            0 <= i < j < self.leases.len() ==> #[trigger] self.leases[i].id != #[trigger] self.leases[j].id
        &&& 0 <= held_permits(self.leases) <= self.total
        &&& self.leases.len() <= u32::MAX
    }
}

/// The permit accounting of one governor.
#[derive(Debug)]
pub struct PermitLedger {
    total: u32,
    available: u32,
    leases: Vec<PermitLease>,
}

impl View for PermitLedger {
    type V = PermitLedgerView;

    closed spec fn view(&self) -> PermitLedgerView {
        PermitLedgerView { total: self.total, available: self.available, leases: self.leases@ }
    }
}

proof fn lemma_held_nonneg(leases: Seq<PermitLease>)
    ensures
        held_permits(leases) >= 0,
    decreases leases.len(),
{
    if leases.len() > 0 {
        lemma_held_nonneg(leases.drop_last());
    }
}

proof fn lemma_held_push(leases: Seq<PermitLease>, lease: PermitLease)
    ensures
        held_permits(leases.push(lease)) == held_permits(leases) + if lease.granted {
            lease.permits as int
        } else {
            0
        },
{
    assert(leases.push(lease).drop_last() =~= leases);
}

proof fn lemma_held_update(leases: Seq<PermitLease>, i: int, lease: PermitLease)
    requires
        0 <= i < leases.len(),
    ensures
        held_permits(leases.update(i, lease)) == held_permits(leases) - (if leases[i].granted {
            leases[i].permits as int
        } else {
            0
        }) + (if lease.granted {
            lease.permits as int
        } else {
            0
        }),
    decreases leases.len(),
{
    let after = leases.update(i, lease);
    if i < leases.len() - 1 {
        lemma_held_update(leases.drop_last(), i, lease);
        assert(after.drop_last() =~= leases.drop_last().update(i, lease));
    } else {
        assert(after.drop_last() =~= leases.drop_last());
    }
}

proof fn lemma_held_remove(leases: Seq<PermitLease>, i: int)
    requires
        0 <= i < leases.len(),
    ensures
        held_permits(leases.remove(i)) == held_permits(leases) - (if leases[i].granted {
            leases[i].permits as int
        } else {
            0
        }),
    decreases leases.len(),
{
    let after = leases.remove(i);
    if i < leases.len() - 1 {
        lemma_held_remove(leases.drop_last(), i);
        assert(after.drop_last() =~= leases.drop_last().remove(i));
        assert(after.last() == leases.last());
    } else {
        assert(after =~= leases.drop_last());
    }
}

impl PermitLedger {
    /// The ledger's invariant; every method keeps it.
    pub open spec fn wf(&self) -> bool {
        self@.well_formed()
    }

    /// A ledger rationing `total` permits, with no lease yet.
    pub fn new(total: u32) -> (l: Self)
        ensures
            l.wf(),
            l@ == (PermitLedgerView { total, available: total, leases: Seq::empty() }),
    {
        PermitLedger { total, available: total, leases: Vec::new() }
    }

    /// The total permits rationed.
    pub fn total(&self) -> (r: u32)
        ensures
            r == self@.total,
    {
        self.total
    }

    /// The permits not held by any granted lease.
    pub fn available(&self) -> (r: u32)
        ensures
            r == self@.available,
            self.wf() ==> r == self@.total - held_permits(self@.leases),
    {
        self.available
    }

    /// The external sorts admitted and not yet released.
    pub fn active(&self) -> (r: u32)
        requires
            self.wf(),
        ensures
            r == self@.active(),
    {
        self.leases.len() as u32
    }

    /// The position of the lease with id `id`, if there is one.
    pub fn find(&self, id: u64) -> (found: Option<usize>)
        ensures
            found is None <==> !has_lease(self@.leases, id),
            found matches Some(i) ==> lease_at(self@.leases, id, i as int),
    {
        let mut i: usize = 0;
        while i < self.leases.len()
            invariant
                i <= self.leases@.len(),
                forall|j: int| 0 <= j < i ==> self.leases@[j].id != id,
            decreases self.leases@.len() - i,
        {
            if self.leases[i].id == id {
                assert(lease_at(self@.leases, id, i as int));
                return Some(i);
            }
            i = i + 1;
        }
        assert(!has_lease(self@.leases, id));
        None
    }

    /// Whether another external sort can be registered without the active
    /// count overflowing.
    pub fn can_admit(&self) -> (r: bool)
        ensures
            r == (self@.leases.len() < u32::MAX),
    {
        self.leases.len() < u32::MAX as usize
    }

    /// Register admitted external sort `id`, asking for `permits`: it is active from now
    /// on, and holds nothing until its permits are granted.
    pub fn register(&mut self, id: u64, permits: u32)
        requires
            old(self).wf(),
            old(self)@.leases.len() < u32::MAX,
            !has_lease(old(self)@.leases, id),
        ensures
            final(self).wf(),
            final(self)@ == (PermitLedgerView {
                leases: old(self)@.leases.push(PermitLease { id, permits, granted: false }),
                ..old(self)@
            }),
            final(self)@.active() == old(self)@.active() + 1,
    {
        let lease = PermitLease { id, permits, granted: false };
        self.leases.push(lease);
        proof {
            lemma_held_push(old(self)@.leases, lease);
            assert forall|i: int, j: int| 0 <= i < j < self@.leases.len() implies #[trigger] self@.leases[i].id
                != #[trigger] self@.leases[j].id by {
                if j == self@.leases.len() - 1 {
                    assert(!lease_at(old(self)@.leases, id, i));
                }
            }
        }
    }

    /// Grant the permits of lease `id`, when it is waiting for them and
    /// enough are available: they are held from now on. Otherwise nothing
    /// changes and `false` is returned.
    pub fn grant(&mut self, id: u64) -> (granted: bool)
        requires
            old(self).wf(),
        ensures
            final(self).wf(),
            granted <==> exists|i: int|
                lease_at(old(self)@.leases, id, i) && !old(self)@.leases[i].granted
                    && old(self)@.leases[i].permits <= old(self)@.available,
            granted ==> exists|i: int|
                lease_at(old(self)@.leases, id, i) && final(self)@ == (PermitLedgerView {
                    leases: old(self)@.leases.update(
                        i,
                        PermitLease { granted: true, ..old(self)@.leases[i] },
                    ),
                    available: (old(self)@.available - old(self)@.leases[i].permits) as u32,
                    ..old(self)@
                }),
            !granted ==> final(self)@ == old(self)@,
            final(self)@.active() == old(self)@.active(),
    {
        match self.find(id) {
            None => false,
            Some(i) => {
                let lease = self.leases[i];
                if lease.granted || lease.permits > self.available {
                    proof {
                        assert forall|j: int|
                            lease_at(old(self)@.leases, id, j) && !old(self)@.leases[j].granted implies old(
                            self,
                        )@.leases[j].permits > old(self)@.free_permits() by {
                            assert(j == i as int);
                        }
                    }
                    false
                } else {
                    let updated = PermitLease { granted: true, ..lease };
                    proof {
                        lemma_held_update(old(self)@.leases, i as int, updated);
                    }
                    self.leases.set(i, updated);
                    self.available = self.available - lease.permits;
                    proof {
                        assert(self@.leases =~= old(self)@.leases.update(i as int, updated));
                        assert forall|a: int, b: int| 0 <= a < b < self@.leases.len() implies #[trigger] self@.leases[a].id
                            != #[trigger] self@.leases[b].id by {
                            assert(self@.leases[a].id == old(self)@.leases[a].id);
                            assert(self@.leases[b].id == old(self)@.leases[b].id);
                        }
                    }
                    true
                }
            },
        }
    }

    /// Release lease `id`, whether or not its permits were granted: it is no
    /// longer active, and the permits it held are available again. Releasing
    /// an id with no lease changes nothing.
    pub fn release(&mut self, id: u64)
        requires
            old(self).wf(),
        ensures
            final(self).wf(),
            !has_lease(old(self)@.leases, id) ==> final(self)@ == old(self)@,
            has_lease(old(self)@.leases, id) ==> exists|i: int|
                lease_at(old(self)@.leases, id, i) && final(self)@ == (PermitLedgerView {
                    leases: old(self)@.leases.remove(i),
                    available: (old(self)@.available + if old(self)@.leases[i].granted {
                        old(self)@.leases[i].permits as int
                    } else {
                        0
                    }) as u32,
                    ..old(self)@
                }) && final(self)@.active() == old(self)@.active() - 1,
    {
        match self.find(id) {
            None => {},
            Some(i) => {
                proof {
                    lemma_held_remove(old(self)@.leases, i as int);
                    lemma_held_nonneg(old(self)@.leases.remove(i as int));
                }
                let lease = self.leases.remove(i);
                if lease.granted {
                    self.available = self.available + lease.permits;
                }
                proof {
                    assert forall|a: int, b: int| 0 <= a < b < self@.leases.len() implies #[trigger] self@.leases[a].id
                        != #[trigger] self@.leases[b].id by {
                        let old_leases = old(self)@.leases;
                        let oa = if a < i { a } else { a + 1 };
                        let ob = if b < i { b } else { b + 1 };
                        assert(self@.leases[a] == old_leases[oa]);
                        assert(self@.leases[b] == old_leases[ob]);
                    }
                }
            },
        }
    }
}

/// Law: in every state the ledger reaches (every method keeps its
/// invariant, starting from `new`), the permits available are the total
/// less the permits held by the granted, unreleased leases, never below zero
/// nor above the total; and the active external sorts are the leases
/// registered and not yet released. Releasing a lease returns exactly what
/// it held: its permits if they were granted, nothing otherwise.
pub proof fn law_permit_accounting(v: PermitLedgerView, i: int)
    requires
        v.well_formed(),
        0 <= i < v.leases.len(),
    ensures
        v.available == v.total - held_permits(v.leases),
        0 <= v.available <= v.total,
        v.active() == v.leases.len(),
        held_permits(v.leases.remove(i)) + (if v.leases[i].granted {
            v.leases[i].permits as int
        } else {
            0
        }) == held_permits(v.leases),
{
    lemma_held_remove(v.leases, i);
}

} // verus!
