//! The governor's admission bookkeeping.

use sort_governor::service::{Governor, PermitLedger};
use sort_governor::{SortPlan, SortSpec, SorterConfig};

const MIB: u64 = 1024 * 1024;

#[test]
fn budget_is_floored_at_two() {
    assert_eq!(Governor::new(SorterConfig::default(), 0).fd_total(), 2);
    assert_eq!(Governor::new(SorterConfig::default(), 128).fd_total(), 128);
}

#[test]
fn admissions_are_counted_and_named() {
    let mut governor = Governor::new(SorterConfig::default(), 128);
    let snap = governor.snapshot(1 << 30, 0, 128, 0);
    assert_eq!(snap.fd_headroom(), 128);
    let small = governor.admit_sort(&SortSpec::new(1_000, MIB), &snap);
    assert_eq!(small.plan, SortPlan::InMemory);
    assert_eq!(small.id, 0);
    assert_eq!(small.fd_permits, 0);
    assert_eq!(small.scratch_dir_name, "sort-00000000000000000000");

    let snap = governor.snapshot(8 * MIB, 0, 128, 0);
    let large = governor.admit_sort(&SortSpec::new(1_000_000, 64 * MIB), &snap);
    assert!(large.plan.is_external());
    assert_eq!(large.id, 1);
    // Plentiful fds with no concurrency: the full configured fan-in.
    assert_eq!(large.fd_permits, 64);
    assert_eq!(large.scratch_dir_name, "sort-00000000000000000001");

    let stats = governor.stats(1, 128 - 64);
    assert_eq!(stats.in_memory_sorts, 1);
    assert_eq!(stats.external_sorts, 1);
    assert_eq!(stats.active_external_sorts, 1);
    assert_eq!(stats.fd_permits_available, 64);
    assert_eq!(stats.fd_permits_total, 128);
}

#[test]
fn snapshot_saturates_the_permit_count() {
    let governor = Governor::new(SorterConfig::default(), 8);
    let snap = governor.snapshot(10, 20, usize::MAX, 3);
    assert_eq!(snap.fd_headroom(), u32::MAX);
    assert_eq!(snap.available_memory_bytes(), 0);
    assert_eq!(snap.active_external_sorts(), 3);
}

#[test]
fn requested_permits_never_exceed_the_total() {
    let mut governor = Governor::new(SorterConfig::default(), 8);
    for available in 0..=8usize {
        let snap = governor.snapshot(MIB, 0, available, 0);
        let admission = governor.admit_sort(&SortSpec::new(1, 64 * MIB), &snap);
        assert!(admission.fd_permits <= 8);
        assert!(admission.fd_permits >= 2);
    }
}

#[test]
fn permit_ledger_counts_grants_and_releases() {
    let mut ledger = PermitLedger::new(10);
    assert_eq!((ledger.available(), ledger.active(), ledger.total()), (10, 0, 10));
    ledger.register(1, 4);
    ledger.register(2, 8);
    // Admitted but not yet granted: active, holding nothing.
    assert_eq!((ledger.available(), ledger.active()), (10, 2));
    assert!(ledger.grant(1));
    assert_eq!(ledger.available(), 6);
    // Not enough left for the second sort: it keeps waiting.
    assert!(!ledger.grant(2));
    assert_eq!((ledger.available(), ledger.active()), (6, 2));
    ledger.release(1);
    assert_eq!((ledger.available(), ledger.active()), (10, 1));
    assert!(ledger.grant(2));
    assert_eq!(ledger.available(), 2);
    // A grant is not given twice.
    assert!(!ledger.grant(2));
    ledger.release(2);
    assert_eq!((ledger.available(), ledger.active()), (10, 0));
}

#[test]
fn permit_ledger_ignores_unknown_ids_and_frees_ungranted_leases() {
    let mut ledger = PermitLedger::new(4);
    assert!(!ledger.grant(7));
    ledger.release(7);
    assert_eq!((ledger.available(), ledger.active()), (4, 0));
    ledger.register(3, 2);
    assert!(ledger.find(3).is_some());
    assert!(ledger.can_admit());
    ledger.release(3);
    assert!(ledger.find(3).is_none());
    assert_eq!((ledger.available(), ledger.active()), (4, 0));
}

#[test]
fn cloned_spec_keeps_its_fields() {
    let s = SortSpec::new(120, 4096).labelled("orders");
    let t = s.clone().with_dedup(true);
    assert!(t.dedup());
    assert_eq!(t.estimated_rows(), s.estimated_rows());
    assert_eq!(t.estimated_bytes(), s.estimated_bytes());
    assert_eq!(t.label(), s.label());
}
