use serde_json::Value;
use spark_dashboard::engines::EngineType;
use spark_dashboard::hec::{
    classify_response, classify_test, default_events_index, default_index, engine_type_key,
    is_active,
    mask_token, mask_token_in_document, reason_for, resolve_test_target,
    retain_token_in_document, EngineLoad, ExportState, ExportStatus, Exporter, HecTarget,
    LoadSnapshot, RequestCounts, RequestSpan, SendOutcome, TestOutcome, TestOverride,
};

fn target() -> HecTarget {
    HecTarget {
        url: "http://127.0.0.1:1/collector".into(),
        token: "secret-token".into(),
        index: "metrics".into(),
        events_index: "main".into(),
    }
}

// -- token masking / retention ----------------------------------------------

#[test]
fn mask_token_keeps_the_last_four_characters() {
    assert_eq!(mask_token("secret-token-12345"), "…2345");
    assert_eq!(mask_token("ab"), "…ab");
}

#[test]
fn mask_token_in_document_masks_only_the_token() {
    let document = b"{\"version\":1,\"pages\":[{\"name\":\"Overview\"}],\"export\":{\"hec\":{\"url\":\"https://x\",\"token\":\"super-secret\",\"index\":\"metrics\"}}}";
    let masked = mask_token_in_document(document).unwrap();
    let value: Value = serde_json::from_slice(&masked).unwrap();
    assert_eq!(value["export"]["hec"]["token"], "…cret");
    assert_eq!(value["export"]["hec"]["url"], "https://x");
    assert_eq!(value["pages"][0]["name"], "Overview");
    assert_eq!(value["version"], 1);
}

#[test]
fn mask_token_in_document_leaves_other_documents_alone() {
    assert_eq!(mask_token_in_document(b"not json"), None);
    assert_eq!(mask_token_in_document(b"{}"), None);
    assert_eq!(
        mask_token_in_document(b"{\"export\":{\"hec\":{\"url\":\"https://x\",\"token\":\"\"}}}"),
        None
    );
}

#[test]
fn retain_token_in_document_fills_an_empty_token_from_the_stored_one() {
    let stored = "stored-token-abc";
    let incoming = b"{\"export\":{\"hec\":{\"url\":\"https://x\",\"token\":\"\"}}}";
    let merged = retain_token_in_document(incoming, stored).unwrap();
    let value: Value = serde_json::from_slice(&merged).unwrap();
    assert_eq!(value["export"]["hec"]["token"], stored);
}

#[test]
fn retain_token_in_document_never_overwrites_a_fresh_token() {
    let incoming = b"{\"export\":{\"hec\":{\"url\":\"https://x\",\"token\":\"brand-new\"}}}";
    assert_eq!(retain_token_in_document(incoming, "old-token"), None);
}

#[test]
fn retain_token_in_document_is_inert_without_a_stored_token_or_section() {
    let incoming = b"{\"export\":{\"hec\":{\"url\":\"https://x\",\"token\":\"\"}}}";
    assert_eq!(retain_token_in_document(incoming, ""), None);
    assert_eq!(retain_token_in_document(b"{\"version\":1}", "stored-token"), None);
}

// -- test-connection override merging ----------------------------------------

#[test]
fn resolve_test_target_prefers_the_override_over_the_stored_target() {
    let stored = target();
    let override_ = TestOverride {
        url: Some("https://new-host:8088/services/collector".into()),
        token: Some("fresh-token".into()),
        index: Some("new-index".into()),
    };
    let resolved = resolve_test_target(override_, Some(&stored)).unwrap();
    assert_eq!(resolved.url, "https://new-host:8088/services/collector");
    assert_eq!(resolved.token, "fresh-token");
    assert_eq!(resolved.index, "new-index");
    assert_eq!(resolved.events_index, stored.events_index);
}

#[test]
fn resolve_test_target_falls_back_to_the_stored_token_when_masked_or_empty() {
    let stored = target();
    let masked = TestOverride {
        url: Some("https://new-host:8088/services/collector".into()),
        token: Some("…oken".into()),
        index: None,
    };
    assert_eq!(resolve_test_target(masked, Some(&stored)).unwrap().token, stored.token);

    let empty = TestOverride {
        url: Some("https://new-host:8088/services/collector".into()),
        token: Some(String::new()),
        index: None,
    };
    assert_eq!(resolve_test_target(empty, Some(&stored)).unwrap().token, stored.token);
}

#[test]
fn resolve_test_target_is_misconfigured_without_any_url() {
    assert_eq!(resolve_test_target(TestOverride::default(), None), None);
}

#[test]
fn resolve_test_target_uses_the_override_alone_when_nothing_is_stored() {
    let override_ = TestOverride {
        url: Some("https://fresh:8088/services/collector".into()),
        token: Some("t".into()),
        index: None,
    };
    let resolved = resolve_test_target(override_, None).unwrap();
    assert_eq!(resolved.url, "https://fresh:8088/services/collector");
    assert_eq!(resolved.token, "t");
    assert_eq!(resolved.index, "metrics");
}

// -- idle gate -----------------------------------------------------------------

const SNAPSHOT_MS: u64 = 1_723_800_000_000;

fn engine_with(active: Option<u64>, queued: Option<u64>) -> EngineLoad {
    EngineLoad {
        metrics: Some(RequestCounts { active_requests: active, queued_requests: queued }),
        recent_requests: vec![],
    }
}

fn snapshot(engines: Vec<EngineLoad>) -> LoadSnapshot {
    LoadSnapshot { timestamp_ms: SNAPSHOT_MS, engines }
}

#[test]
fn known_zero_counts_and_only_old_requests_are_idle() {
    let mut e = engine_with(Some(0), Some(0));
    e.recent_requests = vec![RequestSpan { start_ms: 0, end_ms: 1_723_799_900_000 }];
    assert!(!is_active(&snapshot(vec![e])));
}

#[test]
fn a_recent_request_within_the_window_is_active() {
    let mut e = engine_with(Some(0), Some(0));
    e.recent_requests = vec![RequestSpan { start_ms: 1_723_799_990_000, end_ms: 1_723_799_995_000 }];
    assert!(is_active(&snapshot(vec![e])));
}

#[test]
fn a_request_exactly_at_the_window_edge_is_active() {
    let mut e = engine_with(Some(0), Some(0));
    e.recent_requests = vec![RequestSpan { start_ms: 1_723_799_940_000, end_ms: 1_723_799_940_000 }];
    assert!(is_active(&snapshot(vec![e])));
}

#[test]
fn unknown_counts_fail_open() {
    let broken = EngineLoad { metrics: None, recent_requests: vec![] };
    assert!(is_active(&snapshot(vec![broken])));
    assert!(is_active(&snapshot(vec![engine_with(None, Some(0))])));
}

#[test]
fn queued_requests_count_as_active() {
    assert!(is_active(&snapshot(vec![engine_with(Some(0), Some(3))])));
}

#[test]
fn a_host_with_no_engines_is_idle() {
    assert!(!is_active(&snapshot(vec![])));
}

#[test]
fn the_idle_window_does_not_underflow_near_the_epoch() {
    let e = EngineLoad {
        metrics: Some(RequestCounts { active_requests: Some(0), queued_requests: Some(0) }),
        recent_requests: vec![RequestSpan { start_ms: 0, end_ms: 0 }],
    };
    assert!(is_active(&LoadSnapshot { timestamp_ms: 5_000, engines: vec![e] }));
}

// -- reading HEC answers ---------------------------------------------------------

#[test]
fn hec_answers_are_classified_by_status() {
    assert_eq!(classify_response(200, ""), SendOutcome::Accepted);
    assert_eq!(classify_response(204, ""), SendOutcome::Accepted);
    assert_eq!(classify_response(429, ""), SendOutcome::Retry);
    assert_eq!(classify_response(503, ""), SendOutcome::Retry);
    assert_eq!(classify_response(403, "{\"code\":4}"), SendOutcome::Misconfigured("hec-403".into()));
    assert_eq!(classify_response(401, ""), SendOutcome::Misconfigured("hec-401".into()));
    assert_eq!(
        classify_response(400, "{\"text\":\"Incorrect index\",\"code\":7}"),
        SendOutcome::Misconfigured("hec-400-index-denied".into())
    );
    assert_eq!(classify_response(400, "{\"code\":6}"), SendOutcome::Misconfigured("hec-400".into()));
    assert_eq!(classify_response(400, "not json"), SendOutcome::Misconfigured("hec-400".into()));
    assert_eq!(classify_response(404, ""), SendOutcome::Misconfigured("hec-other".into()));
    assert_eq!(reason_for(400, Some(7)), "hec-400-index-denied");
    assert_eq!(reason_for(418, Some(7)), "hec-other");
}

#[test]
fn connectivity_test_answers_are_classified_by_status() {
    assert_eq!(classify_test(200, ""), TestOutcome::Accepted);
    assert_eq!(classify_test(429, ""), TestOutcome::QueueFull);
    assert_eq!(classify_test(403, ""), TestOutcome::InvalidToken);
    assert_eq!(classify_test(401, ""), TestOutcome::Misconfigured);
    assert_eq!(classify_test(500, ""), TestOutcome::ServerError);
    assert_eq!(classify_test(400, "{\"code\":7}"), TestOutcome::IndexDenied);
    assert_eq!(classify_test(400, "{\"code\":5}"), TestOutcome::Misconfigured);
    assert_eq!(classify_test(302, ""), TestOutcome::Misconfigured);
}

#[test]
fn targets_are_usable_only_with_an_http_url() {
    let mut t = target();
    assert!(t.usable());
    t.url = "https://splunk:8088".into();
    assert!(t.usable());
    t.url = "splunk:8088".into();
    assert!(!t.usable());
    assert_eq!(default_index(), "metrics");
    assert_eq!(default_events_index(), "main");
}

// -- the exporter state machine --------------------------------------------------

const PROBE: u64 = 60_000;

fn status(e: &Exporter<u32>) -> ExportStatus {
    e.status()
}

#[test]
fn exporter_starts_disabled_and_reports_it() {
    let e: Exporter<u32> = Exporter::new(1_000, PROBE);
    let st = status(&e);
    assert_eq!(st.state, ExportState::Disabled);
    assert!(!st.reachable);
    assert_eq!(st.dropped_count, 0);
    assert_eq!(e.next_probe_ms(), 61_000);
    let d = ExportStatus::disabled();
    assert_eq!(d.state, ExportState::Disabled);
    assert_eq!(d.last_error, None);
}

#[test]
fn exporter_sends_an_active_snapshot_and_reports_exporting() {
    let mut e: Exporter<u32> = Exporter::new(0, PROBE);
    assert!(e.admit_snapshot(true));
    let batch = e.take_batch(1);
    assert_eq!(batch, vec![1]);
    assert!(e.record_send(SendOutcome::Accepted, batch, 123, 10, PROBE));
    let st = status(&e);
    assert_eq!(st.state, ExportState::Exporting);
    assert!(st.reachable);
    assert_eq!(st.last_ok_ms, Some(123));
    assert_eq!(st.last_error, None);
}

#[test]
fn exporter_drops_idle_snapshots() {
    let mut e: Exporter<u32> = Exporter::new(0, PROBE);
    assert!(!e.admit_snapshot(false));
    let st = status(&e);
    assert_eq!(st.state, ExportState::Idle);
    assert_eq!(st.dropped_count, 1);
}

#[test]
fn exporter_treats_a_403_as_reachable_and_does_not_queue() {
    let mut e: Exporter<u32> = Exporter::new(0, PROBE);
    assert!(e.admit_snapshot(true));
    let batch = e.take_batch(1);
    e.record_send(SendOutcome::Misconfigured("hec-403".into()), batch, 1, 1, PROBE);
    let st = status(&e);
    assert_eq!(st.state, ExportState::Exporting);
    assert!(st.reachable);
    assert_eq!(st.last_error.as_deref(), Some("hec-403"));
    assert_eq!(st.dropped_count, 1);
    assert!(e.admit_snapshot(true));
    assert_eq!(e.take_batch(2), vec![2], "nothing was queued");
}

#[test]
fn exporter_requeues_a_429_batch_ahead_of_the_next_snapshot() {
    let mut e: Exporter<u32> = Exporter::new(0, PROBE);
    e.admit_snapshot(true);
    let batch = e.take_batch(1);
    e.record_send(SendOutcome::Retry, batch, 1, 1, PROBE);
    let st = status(&e);
    assert_eq!(st.last_error.as_deref(), Some("hec-429-or-5xx"));
    assert_eq!(st.state, ExportState::Exporting);
    assert!(e.admit_snapshot(true));
    assert_eq!(e.take_batch(2), vec![1, 2], "backlog + fresh snapshot");
}

#[test]
fn exporter_goes_down_drops_while_down_and_recovers_via_probe() {
    let mut e: Exporter<u32> = Exporter::new(0, 100);
    e.push_event(90);
    e.admit_snapshot(true);
    let batch = e.take_batch(1);
    e.record_send(SendOutcome::Unreachable, batch, 5, 50, 100);
    let st = status(&e);
    assert_eq!(st.state, ExportState::Down);
    assert!(!st.reachable);
    assert_eq!(st.last_error.as_deref(), Some("connection-failed"));
    assert_eq!(st.dropped_count, 1);
    assert_eq!(e.next_probe_ms(), 150);

    e.push_event(91);
    assert!(!e.admit_snapshot(true), "dropped while down");
    assert_eq!(status(&e).dropped_count, 2);
    assert!(!e.admit_snapshot(false), "idle while down stays down");
    assert_eq!(status(&e).state, ExportState::Down);

    assert!(e.record_probe(Some(SendOutcome::Accepted), 7, 160, 100));
    let st = status(&e);
    assert_eq!(st.state, ExportState::Exporting);
    assert!(st.reachable);
    assert_eq!(e.next_probe_ms(), 260);
    let events = e.take_events();
    assert_eq!(events, vec![90, 91], "both GPU events survived the outage");
    e.record_flush(SendOutcome::Accepted, events, 8, 161, 100);
    assert_eq!(status(&e).last_ok_ms, Some(8));
}

#[test]
fn exporter_reports_a_rejected_probe_as_misconfigured_not_healthy() {
    let mut e: Exporter<u32> = Exporter::new(0, 100);
    e.admit_snapshot(true);
    let batch = e.take_batch(1);
    e.record_send(SendOutcome::Unreachable, batch, 5, 50, 100);
    assert!(!e.record_probe(Some(SendOutcome::Misconfigured("hec-403".into())), 9, 150, 100));
    let st = status(&e);
    assert_eq!(st.state, ExportState::Exporting);
    assert!(st.reachable);
    assert_eq!(st.last_error.as_deref(), Some("hec-403"));
    assert!(st.last_ok_ms.is_none());
}

#[test]
fn an_idle_exporter_keeps_its_state_on_a_heartbeat() {
    let mut e: Exporter<u32> = Exporter::new(0, 100);
    e.admit_snapshot(false);
    assert!(e.record_probe(Some(SendOutcome::Accepted), 42, 100, 100));
    let st = status(&e);
    assert_eq!(st.state, ExportState::Idle);
    assert_eq!(st.last_ok_ms, Some(42));
    assert!(st.reachable);
    e.record_probe(None, 43, 200, 100);
    assert_eq!(status(&e).state, ExportState::Disabled);
    e.disable();
    assert_eq!(status(&e).last_error, None);
}

#[test]
fn exporter_backlogs_and_gpu_buffers_are_capped_oldest_first() {
    let mut e: Exporter<u32> = Exporter::new(0, PROBE);
    for i in 0..1005u32 {
        e.push_event(i);
    }
    let events = e.take_events();
    assert_eq!(events.len(), 1000);
    assert_eq!(events[0], 5);
    assert_eq!(events[999], 1004);
    e.record_flush(SendOutcome::Retry, events, 0, 0, PROBE);
    e.push_event(2000);
    let again = e.take_events();
    assert_eq!(again.len(), 1000);
    assert_eq!(again[0], 6);
    assert_eq!(again[999], 2000);

    e.admit_snapshot(true);
    let big: Vec<u32> = (0..1003).collect();
    let batch = e.take_batch(7);
    assert_eq!(batch, vec![7]);
    e.record_send(SendOutcome::Retry, big, 0, 0, PROBE);
    assert_eq!(status(&e).dropped_count, 3);
    e.admit_snapshot(true);
    let next = e.take_batch(9);
    assert_eq!(next.len(), 1001);
    assert_eq!(next[0], 3);
    assert_eq!(next[1000], 9);
}

#[test]
fn engine_fields_are_named_by_the_lowercased_engine_type() {
    assert_eq!(engine_type_key(&EngineType::Vllm), "metric_name:engine.vllm.");
    assert_eq!(engine_type_key(&EngineType::LlamaCpp), "metric_name:engine.llamacpp.");
}
