//! Report rows: sorting, limits, wrapper-based percentages, unsupported
//! cells, and the two-function example scenario.

use hotpath::report::{MetricType, ProfilingMode, StatsData};
use hotpath::stats::{Measurement, StatsMap};

fn timing_map(entries: &[(&str, &[u64], bool)]) -> StatsMap {
    let mut map = StatsMap::new(0);
    for (name, samples, wrapper) in entries {
        for ns in *samples {
            map.process_measurement(Measurement::Duration {
                name: name.to_string(),
                duration_ns: *ns,
                wrapper: *wrapper,
            });
        }
    }
    map
}

fn row_of<'a>(
    rows: &'a [(String, Vec<MetricType>)],
    name: &str,
) -> &'a Vec<MetricType> {
    for (n, cells) in rows {
        if n == name {
            return cells;
        }
    }
    panic!("row missing");
}

#[test]
fn two_functions_split_the_wrapper_total() {
    let a_samples = [1_000_000u64; 10];
    let b_samples = [2_000_000u64; 10];
    let map = timing_map(&[
        ("a", &a_samples, false),
        ("b", &b_samples, false),
        ("main", &[30_000_000u64], true),
    ]);
    let data = StatsData::new(
        map,
        31_000_000,
        vec![95],
        "main".to_string(),
        15,
        ProfilingMode::Timing,
        true,
    );
    let rows = data.metric_data();
    assert_eq!(rows.len(), 3);
    let a = row_of(&rows, "a");
    let b = row_of(&rows, "b");
    assert!(matches!(a[0], MetricType::CallsCount(10)));
    assert!(matches!(b[0], MetricType::CallsCount(10)));
    let (a_avg, b_avg) = match (a[1], b[1]) {
        (MetricType::DurationNs(x), MetricType::DurationNs(y)) => (x, y),
        _ => panic!("avg cells must be durations"),
    };
    assert_eq!(b_avg, 2 * a_avg);
    let (a_pct, b_pct) = match (a[4], b[4]) {
        (MetricType::Percentage(x), MetricType::Percentage(y)) => (x, y),
        _ => panic!("percentage cells expected"),
    };
    // a holds 10ms of the wrapper's 30ms, b the other 20ms; together they
    // account for the whole session, within rounding.
    assert_eq!(a_pct, 3333);
    assert_eq!(b_pct, 6666);
    assert!(9900 <= a_pct + b_pct && a_pct + b_pct <= 10000);
}

#[test]
fn rows_come_out_sorted_with_limit_applied() {
    let small = [10u64];
    let mid = [500u64];
    let big = [9_000u64];
    let map = timing_map(&[("small", &small, false), ("big", &big, false), ("mid", &mid, false)]);
    let data = StatsData::new(
        map,
        10_000,
        vec![95],
        "main".to_string(),
        2,
        ProfilingMode::Timing,
        true,
    );
    let rows = data.metric_data();
    assert_eq!(rows.len(), 2);
    assert_eq!(rows[0].0, "big");
    assert_eq!(rows[1].0, "mid");
    assert_eq!(data.entry_counts(), (2, 3));
}

#[test]
fn unsupported_alloc_rows_mark_every_value_cell() {
    let mut map = StatsMap::new(0);
    map.process_measurement(Measurement::Allocation {
        name: "async_fn".to_string(),
        value: 0,
        unsupported_async: true,
        wrapper: false,
        cross_thread: false,
    });
    map.process_measurement(Measurement::Allocation {
        name: "plain".to_string(),
        value: 640,
        unsupported_async: false,
        wrapper: false,
        cross_thread: false,
    });
    let data = StatsData::new(
        map,
        1_000_000,
        vec![95],
        "main".to_string(),
        0,
        ProfilingMode::AllocBytesTotal,
        true,
    );
    assert!(data.has_unsupported_async());
    let rows = data.metric_data();
    let marked = row_of(&rows, "async_fn");
    assert!(matches!(marked[0], MetricType::CallsCount(1)));
    for cell in marked.iter().skip(1) {
        assert!(matches!(cell, MetricType::Unsupported));
    }
    let plain = row_of(&rows, "plain");
    assert!(matches!(plain[3], MetricType::AllocBytes(640)));
}

#[test]
fn alloc_percentages_use_displayed_totals_without_a_wrapper() {
    let mut map = StatsMap::new(0);
    for (name, bytes) in [("a", 300u64), ("b", 100u64)] {
        map.process_measurement(Measurement::Allocation {
            name: name.to_string(),
            value: bytes,
            unsupported_async: false,
            wrapper: false,
            cross_thread: false,
        });
    }
    let data = StatsData::new(
        map,
        1_000,
        vec![95],
        "main".to_string(),
        0,
        ProfilingMode::AllocBytesTotal,
        true,
    );
    let rows = data.metric_data();
    let a = row_of(&rows, "a");
    let b = row_of(&rows, "b");
    assert!(matches!(a[4], MetricType::Percentage(7500)));
    assert!(matches!(b[4], MetricType::Percentage(2500)));
}

#[test]
fn headers_follow_the_percentile_list() {
    let map = timing_map(&[("a", &[5u64], false)]);
    let data = StatsData::new(
        map,
        100,
        vec![50, 99],
        "main".to_string(),
        0,
        ProfilingMode::Timing,
        true,
    );
    let headers = data.headers();
    let texts: Vec<&str> = headers.iter().map(|h| h.as_str()).collect();
    assert_eq!(texts, vec!["Function", "Calls", "Avg", "P50", "P99", "Total", "% Total"]);
}

#[test]
fn function_names_are_shortened_to_two_segments() {
    let map = timing_map(&[("crate_name::module::function", &[5u64], false)]);
    let data = StatsData::new(
        map,
        100,
        vec![95],
        "main".to_string(),
        0,
        ProfilingMode::Timing,
        true,
    );
    let rows = data.metric_data();
    assert_eq!(rows[0].0, "module::function");
}

#[test]
fn empty_aggregate_reports_no_rows() {
    let map = StatsMap::new(0);
    let data = StatsData::new(
        map,
        100,
        vec![95],
        "main".to_string(),
        0,
        ProfilingMode::Timing,
        true,
    );
    assert_eq!(data.metric_data().len(), 0);
    assert_eq!(data.entry_counts(), (0, 0));
}
