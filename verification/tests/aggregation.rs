//! The aggregation worker's fold: counts, totals, percentiles.

use hotpath::hist::ValueHistogram;
use hotpath::stats::{FunctionStats, Measurement, StatsMap};

fn duration(name: &str, ns: u64) -> Measurement {
    Measurement::Duration { name: name.to_string(), duration_ns: ns, wrapper: false }
}

#[test]
fn count_matches_measurements_received() {
    let mut map = StatsMap::new(0);
    let batch = vec![
        duration("a", 10),
        duration("b", 20),
        duration("a", 30),
        duration("a", 40),
        duration("b", 50),
    ];
    map.process_measurements(batch);
    assert_eq!(map.get(&"a".to_string()).unwrap().count, 3);
    assert_eq!(map.get(&"b".to_string()).unwrap().count, 2);
    assert!(map.get(&"c".to_string()).is_none());
}

#[test]
fn total_never_decreases() {
    let mut map = StatsMap::new(0);
    let mut last_total = 0u64;
    for ns in [100u64, 1, 50, 7, 9000] {
        map.process_measurement(duration("a", ns));
        let total = map.get(&"a".to_string()).unwrap().total();
        assert!(total >= last_total);
        last_total = total;
    }
    assert_eq!(last_total, 100 + 1 + 50 + 7 + 9000);
}

#[test]
fn percentile_is_monotonic() {
    let mut hist = ValueHistogram::new(1, 1_000_000);
    for v in [5u64, 100, 17, 3, 250, 42] {
        hist.record(v);
    }
    let mut last = 0u64;
    for p in 0u64..=100 {
        let v = hist.value_at_percentile(p);
        assert!(v >= last);
        last = v;
    }
    assert_eq!(hist.value_at_percentile(0), 3);
    // rank of the 50th percentile over six samples is the third smallest
    assert_eq!(hist.value_at_percentile(50), 17);
    assert_eq!(hist.value_at_percentile(100), 250);
}

#[test]
fn percentile_request_is_clamped() {
    let mut hist = ValueHistogram::new(1, 1_000_000);
    hist.record(10);
    hist.record(20);
    assert_eq!(hist.value_at_percentile(100), hist.value_at_percentile(10_000));
}

#[test]
fn samples_are_clamped_not_rejected() {
    let mut hist = ValueHistogram::new(1, 100);
    hist.record(0);
    hist.record(1_000_000);
    assert_eq!(hist.count(), 2);
    assert_eq!(hist.value_at_percentile(0), 1);
    assert_eq!(hist.value_at_percentile(100), 100);
    assert_eq!(hist.total(), 101);
}

#[test]
fn mean_rounds_down() {
    let mut hist = ValueHistogram::new(1, 1_000_000);
    hist.record(10);
    hist.record(11);
    assert_eq!(hist.mean(), 10);
}

#[test]
fn alloc_update_skips_empty_and_unsupported_values() {
    let mut stats = FunctionStats::new_alloc(false, 4);
    stats.update_alloc(100, false, false);
    stats.update_alloc(0, false, false);
    stats.update_alloc(999, true, false);
    assert_eq!(stats.count, 3);
    assert_eq!(stats.hist.count(), 1);
    assert_eq!(stats.total(), 100);
    assert!(stats.has_unsupported_async);
    assert!(!stats.cross_thread);
}

#[test]
fn recent_samples_keep_the_newest() {
    let mut stats = FunctionStats::new_duration(false, 3);
    for ns in [1u64, 2, 3, 4, 5] {
        stats.update_duration(ns);
    }
    assert_eq!(stats.recent_samples, vec![3, 4, 5]);
    let mut none_kept = FunctionStats::new_duration(false, 0);
    none_kept.update_duration(7);
    assert_eq!(none_kept.recent_samples.len(), 0);
}

#[test]
fn aggregate_passes_its_own_validation() {
    let mut map = StatsMap::new(2);
    map.process_measurement(duration("a", 5));
    map.process_measurement(duration("b", 6));
    assert!(map.check_wf());
}
