use std::sync::atomic::{AtomicUsize, Ordering};

use wonder_of_u::path_probe::{PathProbeCache, PATH_PROBE_TRUST_WINDOW_MS};

#[test]
fn a_fresh_result_is_reused_instead_of_spawning_the_binary_again() {
    let mut cache = PathProbeCache::new();
    let probes = AtomicUsize::new(0);
    let probe = || {
        probes.fetch_add(1, Ordering::SeqCst);
        true
    };

    assert!(cache.binary_is_available(0, probe));
    assert!(cache.binary_is_available(1_000, probe));
    assert!(cache.binary_is_available(2_000, probe));

    assert_eq!(probes.load(Ordering::SeqCst), 1);
}

#[test]
fn a_cached_miss_is_reused_too_so_a_missing_binary_is_not_re_probed_per_emit() {
    let mut cache = PathProbeCache::new();
    let probes = AtomicUsize::new(0);
    let probe = || {
        probes.fetch_add(1, Ordering::SeqCst);
        false
    };

    assert!(!cache.binary_is_available(0, probe));
    assert!(!cache.binary_is_available(10, probe));

    assert_eq!(probes.load(Ordering::SeqCst), 1);
}

#[test]
fn a_lapsed_result_is_probed_again_so_a_new_install_is_picked_up() {
    // A zero trust window expires immediately: stand-in for the window lapsing.
    let mut cache = PathProbeCache::with_trust_window(0);
    let probes = AtomicUsize::new(0);

    assert!(!cache.binary_is_available(0, || {
        probes.fetch_add(1, Ordering::SeqCst);
        false
    }));
    assert!(cache.binary_is_available(0, || {
        probes.fetch_add(1, Ordering::SeqCst);
        true
    }));

    assert_eq!(probes.load(Ordering::SeqCst), 2);
}

#[test]
fn the_window_is_a_minute_and_ends_exactly_at_its_length() {
    let mut cache = PathProbeCache::new();
    cache.store(true, 5_000);
    assert_eq!(cache.fresh_result(5_000 + PATH_PROBE_TRUST_WINDOW_MS - 1), Some(true));
    assert_eq!(cache.fresh_result(5_000 + PATH_PROBE_TRUST_WINDOW_MS), None);
    assert_eq!(PATH_PROBE_TRUST_WINDOW_MS, 60_000);
}
