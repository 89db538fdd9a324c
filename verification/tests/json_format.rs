//! The exported JSON format: reading the stable shape back and round-tripping
//! what the library writes.

use hotpath::json::{metrics_to_json, parse_metrics};
use hotpath::report::{MetricType, MetricsDataJson, MetricsJson, ProfilingMode};
use hotpath::stats::{Measurement, StatsMap};

#[test]
fn output_test_deserialize_timing_mode() {
    let json_str = r#"{
        "hotpath_profiling_mode": "timing",
        "total_elapsed": 125189584,
        "caller_name": "basic::main",
        "description": "Time metrics",
        "output": {
            "basic::async_function": {
                "calls": 100,
                "avg": 1174672,
                "p95": 1201151,
                "total": 117467210,
                "percent_total": 9383
            },
            "basic::sync_function": {
                "calls": 100,
                "avg": 22563,
                "p95": 33887,
                "total": 2256381,
                "percent_total": 180
            },
            "custom_block": {
                "calls": 100,
                "avg": 21936,
                "p95": 33087,
                "total": 2193628,
                "percent_total": 175
            }
        }
    }"#;

    let metrics = parse_metrics(json_str).expect("well-formed timing report");

    assert!(matches!(metrics.hotpath_profiling_mode, ProfilingMode::Timing));
    assert_eq!(metrics.total_elapsed, 125189584);
    assert_eq!(metrics.caller_name, "basic::main");
    assert_eq!(metrics.data.entries.len(), 3);
    let names: Vec<&str> = metrics.data.entries.iter().map(|(n, _)| n.as_str()).collect();
    assert!(names.contains(&"basic::async_function"));
    assert!(names.contains(&"basic::sync_function"));
    assert!(names.contains(&"custom_block"));

    let first_row = &metrics.data.entries[0].1;
    assert!(matches!(first_row[0], MetricType::CallsCount(_)));
    assert!(matches!(first_row[1], MetricType::DurationNs(_)));
    assert!(matches!(first_row[2], MetricType::DurationNs(_)));
    assert!(matches!(first_row[3], MetricType::DurationNs(_)));
    assert!(matches!(first_row[4], MetricType::Percentage(_)));
}

#[test]
fn output_test_deserialize_alloc_count_total_mode() {
    let json_str = r#"{
        "hotpath_profiling_mode": "alloc-count-total",
        "total_elapsed": 123762083,
        "caller_name": "basic::main",
        "description": "Total allocation count",
        "output": {
            "basic::sync_function": {
                "calls": 100,
                "avg": 2,
                "p95": 2,
                "total": 200,
                "percent_total": 3333
            },
            "basic::async_function": {
                "calls": 100,
                "avg": 2,
                "p95": 2,
                "total": 200,
                "percent_total": 3333
            },
            "custom_block": {
                "calls": 100,
                "avg": 2,
                "p95": 2,
                "total": 200,
                "percent_total": 3333
            }
        }
    }"#;

    let metrics = parse_metrics(json_str).expect("well-formed allocation report");

    assert!(matches!(metrics.hotpath_profiling_mode, ProfilingMode::AllocCountTotal));
    assert_eq!(metrics.total_elapsed, 123762083);
    assert_eq!(metrics.caller_name, "basic::main");
    assert_eq!(metrics.data.entries.len(), 3);

    let first_row = &metrics.data.entries[0].1;
    assert!(matches!(first_row[0], MetricType::CallsCount(_)));
    assert!(matches!(first_row[1], MetricType::AllocCount(_)));
    assert!(matches!(first_row[2], MetricType::AllocCount(_)));
    assert!(matches!(first_row[3], MetricType::AllocCount(_)));
    assert!(matches!(first_row[4], MetricType::Percentage(_)));
}

#[test]
fn output_test_deserialize_alloc_bytes_total_mode() {
    let json_str = r#"{
        "hotpath_profiling_mode": "alloc-bytes-total",
        "total_elapsed": 121738041,
        "caller_name": "basic::main",
        "description": "Total allocated bytes",
        "output": {
            "custom_block": {
                "calls": 100,
                "avg": 1088,
                "p95": 1088,
                "total": 108800,
                "percent_total": 8292
            },
            "basic::sync_function": {
                "calls": 100,
                "avg": 152,
                "p95": 152,
                "total": 15200,
                "percent_total": 1158
            },
            "basic::async_function": {
                "calls": 100,
                "avg": 72,
                "p95": 72,
                "total": 7200,
                "percent_total": 548
            }
        }
    }"#;

    let metrics = parse_metrics(json_str).expect("well-formed allocation report");

    assert!(matches!(metrics.hotpath_profiling_mode, ProfilingMode::AllocBytesTotal));
    assert_eq!(metrics.total_elapsed, 121738041);
    assert_eq!(metrics.caller_name, "basic::main");
    assert_eq!(metrics.data.entries.len(), 3);

    let first_row = &metrics.data.entries[0].1;
    assert!(matches!(first_row[0], MetricType::CallsCount(_)));
    assert!(matches!(first_row[1], MetricType::AllocBytes(_)));
    assert!(matches!(first_row[2], MetricType::AllocBytes(_)));
    assert!(matches!(first_row[3], MetricType::AllocBytes(_)));
    assert!(matches!(first_row[4], MetricType::Percentage(_)));
}

#[test]
fn output_test_serialize_deserialize_roundtrip() {
    let original_json_str = r#"{
        "hotpath_profiling_mode": "timing",
        "total_elapsed": 125189584,
        "caller_name": "basic::main",
        "description": "Time metrics",
        "output": {
            "basic::async_function": {
                "calls": 100,
                "avg": 1174672,
                "p95": 1201151,
                "total": 117467210,
                "percent_total": 9383
            }
        }
    }"#;

    let metrics = parse_metrics(original_json_str).expect("well-formed report");
    let serialized_str = metrics_to_json(&metrics);

    let original_json: serde_json::Value = serde_json::from_str(original_json_str).unwrap();
    let serialized_json: serde_json::Value = serde_json::from_str(&serialized_str).unwrap();
    assert_eq!(serialized_json, original_json);
}

#[test]
fn output_test_metric_data_structure() {
    let json_str = r#"{
        "hotpath_profiling_mode": "timing",
        "total_elapsed": 125189584,
        "caller_name": "basic::main",
        "description": "Time metrics",
        "output": {
            "test_function": {
                "calls": 42,
                "avg": 1000,
                "p95": 2000,
                "total": 42000,
                "percent_total": 100
            }
        }
    }"#;

    let metrics = parse_metrics(json_str).expect("well-formed report");

    assert_eq!(metrics.percentiles, vec![95]);
    assert_eq!(metrics.data.entries.len(), 1);
    assert_eq!(metrics.data.entries[0].0, "test_function");
    assert_eq!(metrics.data.entries[0].1.len(), 5);
    assert!(matches!(metrics.data.entries[0].1[0], MetricType::CallsCount(42)));
}

#[test]
fn emitted_report_parses_back_equal() {
    let mut map = StatsMap::new(0);
    for (name, ns) in [("a::run", 1_000u64), ("a::run", 3_000), ("b::step", 2_000)] {
        map.process_measurement(Measurement::Duration {
            name: name.to_string(),
            duration_ns: ns,
            wrapper: false,
        });
    }
    let exported = MetricsJson::from_parts(
        &map,
        9_999,
        &vec![50, 95],
        &"demo::main".to_string(),
        0,
        ProfilingMode::Timing,
        true,
    );
    let text = metrics_to_json(&exported);
    let parsed = parse_metrics(&text).expect("own output parses");
    assert!(matches!(parsed.hotpath_profiling_mode, ProfilingMode::Timing));
    assert_eq!(parsed.total_elapsed, exported.total_elapsed);
    assert_eq!(parsed.caller_name, exported.caller_name);
    assert_eq!(parsed.percentiles, exported.percentiles);
    assert_eq!(parsed.description, exported.description);
    assert_eq!(parsed.data.entries, exported.data.entries);
}

#[test]
fn unsupported_cells_survive_the_round_trip_as_null() {
    let exported = MetricsJson {
        hotpath_profiling_mode: ProfilingMode::AllocBytesTotal,
        total_elapsed: 5,
        caller_name: "m".to_string(),
        percentiles: vec![95],
        description: "d".to_string(),
        data: MetricsDataJson {
            entries: vec![(
                "async_fn".to_string(),
                vec![
                    MetricType::CallsCount(3),
                    MetricType::Unsupported,
                    MetricType::Unsupported,
                    MetricType::Unsupported,
                    MetricType::Unsupported,
                ],
            )],
        },
    };
    let text = metrics_to_json(&exported);
    assert!(text.contains("null"));
    let parsed = parse_metrics(&text).expect("own output parses");
    assert_eq!(parsed.data.entries, exported.data.entries);
}

#[test]
fn empty_report_round_trips() {
    let map = StatsMap::new(0);
    let exported = MetricsJson::from_parts(
        &map,
        123,
        &vec![95],
        &"quiet::main".to_string(),
        0,
        ProfilingMode::Timing,
        true,
    );
    let text = metrics_to_json(&exported);
    let parsed = parse_metrics(&text).expect("empty report parses");
    assert_eq!(parsed.total_elapsed, 123);
    assert_eq!(parsed.caller_name, "quiet::main");
    assert_eq!(parsed.data.entries.len(), 0);
    assert_eq!(parsed.percentiles.len(), 0);
}

#[test]
fn malformed_reports_are_rejected() {
    assert!(parse_metrics("").is_none());
    assert!(parse_metrics("{}").is_none());
    assert!(parse_metrics("{\"hotpath_profiling_mode\":\"sampling\"").is_none());
    let duplicate = r#"{
        "hotpath_profiling_mode": "timing",
        "total_elapsed": 1,
        "caller_name": "m",
        "description": "d",
        "output": {
            "f": {"calls": 1, "avg": 1, "p95": 1, "total": 1, "percent_total": 1},
            "f": {"calls": 2, "avg": 2, "p95": 2, "total": 2, "percent_total": 2}
        }
    }"#;
    assert!(parse_metrics(duplicate).is_none());
}
