//! Exact rendering of numbers, byte quantities, durations and cells.

use hotpath::report::{format_sample_value, MetricType, ProfilingMode};
use hotpath::text::{
    format_bytes, format_duration, format_function_name, format_time_ago, u64_to_string,
};

#[test]
fn decimal_rendering_is_exact() {
    assert_eq!(u64_to_string(0), "0");
    assert_eq!(u64_to_string(7), "7");
    assert_eq!(u64_to_string(10), "10");
    assert_eq!(u64_to_string(90210), "90210");
    assert_eq!(u64_to_string(u64::MAX), "18446744073709551615");
}

#[test]
fn bytes_render_with_one_decimal_in_the_reached_unit() {
    assert_eq!(format_bytes(0), "0 B");
    assert_eq!(format_bytes(512), "512 B");
    assert_eq!(format_bytes(1023), "1023 B");
    assert_eq!(format_bytes(1024), "1.0 KB");
    assert_eq!(format_bytes(1536), "1.5 KB");
    assert_eq!(format_bytes(2 * 1024 * 1024), "2.0 MB");
    assert_eq!(format_bytes(3 * 1024 * 1024 * 1024), "3.0 GB");
    assert_eq!(format_bytes(1024u64 * 1024 * 1024 * 1024), "1.0 TB");
}

#[test]
fn durations_render_with_two_decimals_in_the_reached_unit() {
    assert_eq!(format_duration(0), "0ns");
    assert_eq!(format_duration(999), "999ns");
    assert_eq!(format_duration(1_500), "1.50µs");
    assert_eq!(format_duration(20_000_000), "20.00ms");
    assert_eq!(format_duration(1_250_000_000), "1.25s");
}

#[test]
fn time_ago_uses_coarse_units() {
    assert_eq!(format_time_ago(999_999_999), "now");
    assert_eq!(format_time_ago(1_000_000_000), "1s ago");
    assert_eq!(format_time_ago(59_000_000_000), "59s ago");
    assert_eq!(format_time_ago(120_000_000_000), "2m ago");
    assert_eq!(format_time_ago(7_200_000_000_000), "2h ago");
}

#[test]
fn sample_values_follow_the_mode() {
    assert_eq!(format_sample_value(1_500, &ProfilingMode::Timing), "1.50µs");
    assert_eq!(format_sample_value(1536, &ProfilingMode::AllocBytesTotal), "1.5 KB");
    assert_eq!(format_sample_value(42, &ProfilingMode::AllocCountTotal), "42");
}

#[test]
fn cells_display_like_the_original_table() {
    assert_eq!(MetricType::CallsCount(100).display_string(), "100");
    assert_eq!(MetricType::DurationNs(1_500_000).display_string(), "1.50ms");
    assert_eq!(MetricType::AllocBytes(2048).display_string(), "2.0 KB");
    assert_eq!(MetricType::AllocCount(12).display_string(), "12");
    assert_eq!(MetricType::Percentage(9500).display_string(), "95.00%");
    assert_eq!(MetricType::Percentage(9383).display_string(), "93.83%");
    assert_eq!(MetricType::Unsupported.display_string(), "N/A*");
}

#[test]
fn long_function_names_keep_their_last_two_segments() {
    assert_eq!(format_function_name("a::b::c"), "b::c");
    assert_eq!(format_function_name("crate::module::deep::call"), "deep::call");
    assert_eq!(format_function_name("module::call"), "module::call");
    assert_eq!(format_function_name("custom_block"), "custom_block");
    assert_eq!(format_function_name(""), "");
}
