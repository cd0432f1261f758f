use spark_dashboard::prometheus::{normalize_metric_prefixes, replace_str, untyped_is_counter};
use spark_dashboard::text::to_decimal;

#[test]
fn colon_prefixes_are_rewritten_in_samples_and_declarations() {
    let body = "# TYPE vllm:num_requests_running gauge\nvllm:num_requests_running 2\nllamacpp:requests_processing 1\nother:x 3\n";
    assert_eq!(
        normalize_metric_prefixes(body),
        "# TYPE vllm_num_requests_running gauge\nvllm_num_requests_running 2\nllamacpp_requests_processing 1\nother:x 3\n"
    );
}

#[test]
fn replacement_scans_left_to_right_without_overlap() {
    assert_eq!(replace_str("aaa", "aa", "b"), "ba");
    assert_eq!(replace_str("xyz", "q", "r"), "xyz");
    assert_eq!(replace_str("", "a", "b"), "");
    assert_eq!(replace_str("a:a:", "a:", ""), "");
}

#[test]
fn untyped_histogram_parts_and_totals_are_counters() {
    assert!(untyped_is_counter("vllm_e2e_request_latency_seconds_sum"));
    assert!(untyped_is_counter("vllm_e2e_request_latency_seconds_count"));
    assert!(untyped_is_counter("vllm_prefix_cache_hits_total"));
    assert!(!untyped_is_counter("vllm_num_requests_running"));
}

#[test]
fn numbers_are_written_in_decimal() {
    assert_eq!(to_decimal(0), "0");
    assert_eq!(to_decimal(8000), "8000");
    assert_eq!(to_decimal(65535), "65535");
}
