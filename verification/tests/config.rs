//! Caps, sort descriptions, snapshots and pressure readings.

use sort_governor::{
    MemoryPressure, SortSpec, SorterConfig, SorterSnapshot, SorterStats, StaticPressure,
};

#[test]
fn default_caps() {
    let cfg = SorterConfig::default();
    assert_eq!(cfg.in_memory_ceiling_bytes(), 8 * 1024 * 1024);
    assert_eq!(cfg.max_fan_in(), 64);
    assert_eq!(cfg.max_concurrent_external(), 8);
    assert_eq!(cfg.fd_safety_margin(), 96);
    assert_eq!(cfg.min_run_buffer_bytes(), 1024 * 1024);
    assert_eq!(cfg.max_run_buffer_bytes(), 256 * 1024 * 1024);
}

#[test]
fn fd_limit_fan_in_is_clamped_to_two_and_sixty_four() {
    assert_eq!(SorterConfig::from_fd_limit(0).max_fan_in(), 2);
    assert_eq!(SorterConfig::from_fd_limit(96).max_fan_in(), 2);
    assert_eq!(SorterConfig::from_fd_limit(96 + 23).max_fan_in(), 2);
    assert_eq!(SorterConfig::from_fd_limit(96 + 24).max_fan_in(), 3);
    assert_eq!(SorterConfig::from_fd_limit(96 + 8 * 64).max_fan_in(), 64);
    assert_eq!(SorterConfig::from_fd_limit(u32::MAX).max_fan_in(), 64);
    let cfg = SorterConfig::from_fd_limit(1_000);
    assert_eq!(cfg.max_fan_in(), 64);
    assert_eq!(cfg.min_run_buffer_bytes(), SorterConfig::default().min_run_buffer_bytes());
    // Concurrent sorts at the derived fan-in stay within the usable fds.
    for limit in [120u32, 200, 256, 600] {
        let fan = SorterConfig::from_fd_limit(limit).max_fan_in();
        assert!(fan * 8 <= limit - 96);
    }
}

#[test]
fn config_clone_keeps_caps() {
    let cfg = SorterConfig::from_fd_limit(256);
    let copy = cfg.clone();
    assert_eq!(copy.max_fan_in(), 20);
}

#[test]
fn sort_spec_builders() {
    let spec = SortSpec::new(5, 80);
    assert_eq!(spec.estimated_rows(), 5);
    assert_eq!(spec.estimated_bytes(), 80);
    assert!(!spec.dedup());
    assert_eq!(spec.label(), "sort");
    let spec = spec.with_dedup(true).labelled("public-api");
    assert!(spec.dedup());
    assert_eq!(spec.label(), "public-api");
    assert_eq!(spec.estimated_bytes(), 80);
}

#[test]
fn snapshot_accessors_and_available_memory() {
    let snap = SorterSnapshot::new(100, 30, 7, 2);
    assert_eq!(snap.effective_target_bytes(), 100);
    assert_eq!(snap.resident_bytes(), 30);
    assert_eq!(snap.fd_headroom(), 7);
    assert_eq!(snap.active_external_sorts(), 2);
    assert_eq!(snap.available_memory_bytes(), 70);
    assert_eq!(SorterSnapshot::new(30, 100, 0, 0).available_memory_bytes(), 0);
}

#[test]
fn static_pressure_reports_its_reading() {
    let pressure = StaticPressure::new(1 << 30, 12);
    assert_eq!(pressure.effective_target_bytes(), 1 << 30);
    assert_eq!(pressure.resident_bytes(), 12);
}

#[test]
fn stats_default_is_zero() {
    let stats = SorterStats::default();
    assert_eq!(stats.in_memory_sorts, 0);
    assert_eq!(stats.fd_permits_total, 0);
}
