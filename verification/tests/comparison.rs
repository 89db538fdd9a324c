//! Comparing two exported reports: paired, new and removed functions, the
//! sort order, and the rendered diff cells.

use hotpath::diff::{compare_metrics, MetricDiff};
use hotpath::report::{
    MetricType::{AllocBytes, CallsCount, DurationNs, Percentage},
    MetricsDataJson, MetricsJson, ProfilingMode,
};

fn report(
    total_elapsed: u64,
    entries: Vec<(String, Vec<hotpath::report::MetricType>)>,
) -> MetricsJson {
    MetricsJson {
        hotpath_profiling_mode: ProfilingMode::Timing,
        total_elapsed,
        caller_name: "test::main".to_string(),
        percentiles: vec![95],
        description: "Time metrics".to_string(),
        data: MetricsDataJson { entries },
    }
}

#[test]
fn test_removed_function() {
    let pr_metrics = report(
        100000000,
        vec![(
            "test::function_a".to_string(),
            vec![
                CallsCount(100),
                DurationNs(1000000),
                DurationNs(1100000),
                DurationNs(100000000),
                Percentage(10000),
            ],
        )],
    );
    let main_metrics = report(
        120000000,
        vec![
            (
                "test::function_a".to_string(),
                vec![
                    CallsCount(90),
                    DurationNs(900000),
                    DurationNs(1000000),
                    DurationNs(81000000),
                    Percentage(9000),
                ],
            ),
            (
                "test::function_b".to_string(),
                vec![
                    CallsCount(50),
                    DurationNs(500000),
                    DurationNs(550000),
                    DurationNs(25000000),
                    Percentage(2500),
                ],
            ),
        ],
    );

    let comparison = compare_metrics(&main_metrics, &pr_metrics);

    assert!(comparison
        .function_diffs
        .iter()
        .any(|f| f.function_name == "test::function_b" && f.is_removed));
}

#[test]
fn test_new_function() {
    let pr_metrics = report(
        150000000,
        vec![
            (
                "test::function_a".to_string(),
                vec![
                    CallsCount(100),
                    DurationNs(1000000),
                    DurationNs(1100000),
                    DurationNs(100000000),
                    Percentage(8000),
                ],
            ),
            (
                "test::function_c".to_string(),
                vec![
                    CallsCount(60),
                    DurationNs(600000),
                    DurationNs(650000),
                    DurationNs(36000000),
                    Percentage(2400),
                ],
            ),
        ],
    );
    let main_metrics = report(
        120000000,
        vec![(
            "test::function_a".to_string(),
            vec![
                CallsCount(90),
                DurationNs(900000),
                DurationNs(1000000),
                DurationNs(81000000),
                Percentage(9000),
            ],
        )],
    );

    let comparison = compare_metrics(&main_metrics, &pr_metrics);

    assert!(comparison
        .function_diffs
        .iter()
        .any(|f| f.function_name == "test::function_c" && f.is_new));
}

#[test]
fn test_new_and_removed_functions() {
    let pr_metrics = report(
        140000000,
        vec![
            (
                "test::function_a".to_string(),
                vec![
                    CallsCount(100),
                    DurationNs(1000000),
                    DurationNs(1100000),
                    DurationNs(100000000),
                    Percentage(7000),
                ],
            ),
            (
                "test::function_c".to_string(),
                vec![
                    CallsCount(40),
                    DurationNs(400000),
                    DurationNs(450000),
                    DurationNs(16000000),
                    Percentage(1500),
                ],
            ),
        ],
    );
    let main_metrics = report(
        120000000,
        vec![
            (
                "test::function_a".to_string(),
                vec![
                    CallsCount(90),
                    DurationNs(900000),
                    DurationNs(1000000),
                    DurationNs(81000000),
                    Percentage(8000),
                ],
            ),
            (
                "test::function_b".to_string(),
                vec![
                    CallsCount(30),
                    DurationNs(300000),
                    DurationNs(350000),
                    DurationNs(9000000),
                    Percentage(1200),
                ],
            ),
        ],
    );

    let comparison = compare_metrics(&main_metrics, &pr_metrics);

    assert_eq!(comparison.function_diffs.len(), 3);
    assert!(comparison
        .function_diffs
        .iter()
        .any(|f| f.function_name == "test::function_b" && f.is_removed));
    assert!(comparison
        .function_diffs
        .iter()
        .any(|f| f.function_name == "test::function_c" && f.is_new));
    assert!(comparison
        .function_diffs
        .iter()
        .any(|f| f.function_name == "test::function_a" && !f.is_new && !f.is_removed));
}

#[test]
fn paired_rows_diff_cell_by_cell_and_sort_by_share() {
    let before = report(
        100,
        vec![
            ("a".to_string(), vec![CallsCount(10), Percentage(2000)]),
            ("b".to_string(), vec![CallsCount(5), Percentage(8000)]),
        ],
    );
    let after = report(
        120,
        vec![
            ("a".to_string(), vec![CallsCount(12), Percentage(3000)]),
            ("b".to_string(), vec![CallsCount(5), Percentage(7000)]),
        ],
    );
    let comparison = compare_metrics(&before, &after);
    assert!(matches!(comparison.total_elapsed_diff, MetricDiff::DurationNs(100, 120)));
    assert_eq!(comparison.function_diffs.len(), 2);
    assert_eq!(comparison.function_diffs[0].function_name, "b");
    assert_eq!(comparison.function_diffs[1].function_name, "a");
    assert_eq!(
        comparison.function_diffs[1].metrics,
        vec![MetricDiff::CallsCount(10, 12), MetricDiff::Percentage(2000, 3000)]
    );
}

#[test]
fn mismatched_and_unsupported_cells_are_skipped() {
    let before = report(
        1,
        vec![("a".to_string(), vec![CallsCount(1), DurationNs(5)])],
    );
    let after = report(
        2,
        vec![("a".to_string(), vec![CallsCount(2), AllocBytes(7)])],
    );
    let comparison = compare_metrics(&before, &after);
    assert_eq!(comparison.function_diffs[0].metrics, vec![MetricDiff::CallsCount(1, 2)]);
}

#[test]
fn test_format_with_emoji() {
    assert_eq!(
        MetricDiff::CallsCount(90, 100).format_with_emoji(None),
        "90 → 100 (+11.1%)"
    );
    assert_eq!(
        MetricDiff::CallsCount(90, 100).format_with_emoji(Some(20)),
        "90 → 100 (+11.1%)   "
    );
    assert_eq!(
        MetricDiff::DurationNs(1_000_000, 2_000_000).format_with_emoji(Some(20)),
        "1.00ms → 2.00ms (+100.0%) ⚠️ "
    );
    assert_eq!(
        MetricDiff::DurationNs(2_000_000, 1_000_000).format_with_emoji(Some(20)),
        "2.00ms → 1.00ms (-50.0%) 🚀 "
    );
    assert_eq!(
        MetricDiff::AllocBytes(1024, 1536).format_with_emoji(None),
        "1.0 KB → 1.5 KB (+50.0%)"
    );
    assert_eq!(
        MetricDiff::Percentage(9000, 10000).format_with_emoji(None),
        "90.00% → 100.00% (+11.1%)"
    );
    assert_eq!(MetricDiff::CallsCount(0, 5).format_with_emoji(None), "0 → 5 (+100.0%)");
    assert_eq!(MetricDiff::CallsCount(0, 0).format_with_emoji(None), "0 → 0 (+0.0%)");
}
