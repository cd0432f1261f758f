use spark_dashboard::engines::{
    adopt_container, clear_stale_pids, engine_overrides, find_tracked, remove_expired,
    ApiKeyResolver, DeploymentMode, EngineState, EngineStatus, EngineType, ModelInfo,
    ModelMetadataError, ModelResolution, PollPlan, TrackedEngine, MODEL_REFRESH_INTERVAL_MS,
    MODEL_UNRESOLVED_RETRY_MS,
};

/// The monotonic clock reading the tests start from.
const T0: u64 = 50_000_000;

fn state() -> EngineState<()> {
    EngineState::new((), DeploymentMode::Native, T0)
}

fn model(name: &str) -> ModelInfo {
    ModelInfo {
        name: name.to_string(),
        parameter_size: None,
        quantization: None,
        precision: None,
        tensor_type: None,
        model_type: None,
        pipeline_tag: None,
    }
}

fn resolved(name: &str) -> ModelResolution {
    ModelResolution { model: Some(model(name)), metadata_error: None }
}

fn errored(name: Option<&str>, error: ModelMetadataError) -> ModelResolution {
    ModelResolution { model: name.map(model), metadata_error: Some(error) }
}

#[test]
fn fresh_state_fetches_model() {
    assert!(state().should_fetch_model(T0));
}

#[test]
fn cached_model_is_not_refetched_within_interval() {
    let mut s = state();
    s.cache_model(resolved("a/b"), T0);
    assert!(!s.should_fetch_model(T0));
}

#[test]
fn cached_model_refetched_after_refresh_interval() {
    let mut s = state();
    s.cache_model(resolved("a/b"), T0);
    s.model_fetched_at_ms = Some(T0 - (MODEL_REFRESH_INTERVAL_MS + 1_000));
    assert!(s.should_fetch_model(T0));
}

#[test]
fn unresolved_model_respects_retry_cooldown() {
    let mut s = state();
    s.cache_model(ModelResolution::empty(), T0);
    assert!(!s.should_fetch_model(T0), "within cooldown");
    s.model_attempted_at_ms = Some(T0 - (MODEL_UNRESOLVED_RETRY_MS + 1_000));
    assert!(s.should_fetch_model(T0), "cooldown elapsed");
}

#[test]
fn errored_resolution_retries_on_unresolved_cooldown() {
    let mut s = state();
    s.cache_model(errored(Some("a/b"), ModelMetadataError::AuthRequired), T0);
    assert_eq!(s.model_metadata_error, Some(ModelMetadataError::AuthRequired));
    assert!(!s.should_fetch_model(T0), "within cooldown");
    s.model_attempted_at_ms = Some(T0 - (MODEL_UNRESOLVED_RETRY_MS + 1_000));
    assert!(s.should_fetch_model(T0), "cooldown elapsed despite cached name");
}

#[test]
fn clean_fetch_clears_metadata_error() {
    let mut s = state();
    s.cache_model(errored(Some("a/b"), ModelMetadataError::AuthRequired), T0);
    s.cache_model(resolved("a/b"), T0);
    assert_eq!(s.model_metadata_error, None);
    assert!(!s.should_fetch_model(T0), "clean result trusted again");
}

#[test]
fn errored_fetch_without_name_keeps_last_known_model() {
    let mut s = state();
    s.cache_model(resolved("a/b"), T0);
    s.cache_model(errored(None, ModelMetadataError::Unavailable), T0);
    assert_eq!(s.cached_model.as_ref().map(|m| m.name.as_str()), Some("a/b"));
    assert_eq!(s.model_metadata_error, Some(ModelMetadataError::Unavailable));
}

#[test]
fn restart_clears_metadata_error() {
    let mut s = state();
    s.cache_model(errored(Some("a/b"), ModelMetadataError::AuthRequired), T0);
    s.record_probe_result(false, T0);
    s.record_probe_result(false, T0);
    s.record_probe_result(false, T0);
    assert_eq!(s.model_metadata_error, None);
}

#[test]
fn restart_invalidates_cached_model() {
    let mut s = state();
    s.cache_model(resolved("a/b"), T0);
    assert!(!s.should_fetch_model(T0));

    s.record_probe_result(false, T0);
    s.record_probe_result(false, T0);
    s.record_probe_result(false, T0);

    assert_eq!(s.status, EngineStatus::Stopped);
    assert!(s.cached_model.is_none());
    assert!(s.should_fetch_model(T0));
}

#[test]
fn successful_probe_keeps_model_cache() {
    let mut s = state();
    s.cache_model(resolved("a/b"), T0);
    s.record_probe_result(true, T0);
    assert!(s.cached_model.is_some());
    assert!(!s.should_fetch_model(T0));
}

#[test]
fn per_endpoint_key_wins_over_global() {
    let r = ApiKeyResolver::from_pairs(
        &["http://a:8000".into(), "http://b:8001".into()],
        &["key-a".into(), "key-b".into()],
        Some("global".into()),
    );
    assert_eq!(r.resolve("http://a:8000"), Some("key-a".into()));
    assert_eq!(r.resolve("http://b:8001"), Some("key-b".into()));
}

#[test]
fn global_key_used_when_endpoint_unpaired() {
    let r = ApiKeyResolver::from_pairs(&["http://a:8000".into()], &["key-a".into()], Some("global".into()));
    assert_eq!(r.resolve("http://detected:9000"), Some("global".into()));
}

#[test]
fn no_key_resolves_to_none() {
    let r = ApiKeyResolver::from_pairs(&[], &[], None);
    assert_eq!(r.resolve("http://a:8000"), None);
}

#[test]
fn empty_keys_are_ignored() {
    let r = ApiKeyResolver::from_pairs(&["http://a:8000".into()], &["".into()], Some("".into()));
    assert_eq!(r.resolve("http://a:8000"), None);
}

#[test]
fn a_container_is_adopted_by_an_engine_that_had_none() {
    let mut s = state();
    assert_eq!(s.container_id, None);
    assert_eq!(s.deployment_mode, DeploymentMode::Native);

    assert!(adopt_container(&mut s, Some("abc123")));

    assert_eq!(s.container_id.as_deref(), Some("abc123"));
    assert_eq!(s.deployment_mode, DeploymentMode::Docker);
}

#[test]
fn an_engine_keeps_the_container_it_already_has() {
    let mut s = state();
    adopt_container(&mut s, Some("first"));

    assert!(!adopt_container(&mut s, Some("second")));
    assert_eq!(s.container_id.as_deref(), Some("first"));
}

#[test]
fn a_native_engine_is_left_alone_when_detection_reports_no_container() {
    let mut s = state();

    assert!(!adopt_container(&mut s, None));

    assert_eq!(s.container_id, None);
    assert_eq!(s.deployment_mode, DeploymentMode::Native);
}

fn entry(endpoint: &str, s: EngineState<()>) -> TrackedEngine<()> {
    TrackedEngine { engine_type: EngineType::Vllm, endpoint: endpoint.to_string(), state: s }
}

#[test]
fn stale_pids_cleared_for_engines_absent_from_detection() {
    let mut seen = state();
    seen.pids = vec![100];
    let mut stale = state();
    stale.pids = vec![200];
    let mut map = vec![entry("http://a:8000", seen), entry("http://b:8001", stale)];

    let detected_keys = vec![(EngineType::Vllm, "http://a:8000".to_string())];
    clear_stale_pids(&mut map, &detected_keys);

    assert_eq!(map[0].state.pids, vec![100], "detected engine keeps PIDs");
    assert!(map[1].state.pids.is_empty(), "undetected engine cleared");
}

// ---------------------------------------------------------------------------
// Further cases
// ---------------------------------------------------------------------------

#[test]
fn a_stopped_engine_is_removed_only_after_the_grace_period() {
    let mut s = state();
    s.record_probe_result(false, T0);
    s.record_probe_result(false, T0 + 1_000);
    assert_eq!(s.status, EngineStatus::Running, "two failures are a blip");
    s.record_probe_result(false, T0 + 2_000);
    assert_eq!(s.status, EngineStatus::Stopped);
    assert_eq!(s.stopped_at_ms, Some(T0 + 2_000));
    s.record_probe_result(false, T0 + 3_000);
    assert_eq!(s.stopped_at_ms, Some(T0 + 2_000), "the stop time is not moved");
    assert!(!s.should_remove(T0 + 32_000));
    assert!(s.should_remove(T0 + 32_001));

    s.record_probe_result(true, T0 + 33_000);
    assert_eq!(s.status, EngineStatus::Running);
    assert_eq!(s.consecutive_failures, 0);
    assert_eq!(s.last_seen_ms, T0 + 33_000);
    assert!(!s.should_remove(T0 + 100_000));
}

#[test]
fn expired_engines_leave_the_table_in_order() {
    let mut gone = state();
    for t in 0..3 {
        gone.record_probe_result(false, T0 + t);
    }
    let mut table = vec![entry("http://a:1", state()), entry("http://b:2", gone), entry("http://c:3", state())];
    remove_expired(&mut table, T0 + 10_000);
    assert_eq!(table.len(), 3);
    remove_expired(&mut table, T0 + 40_000);
    assert_eq!(table.len(), 2);
    assert_eq!(table[0].endpoint, "http://a:1");
    assert_eq!(table[1].endpoint, "http://c:3");
    assert_eq!(find_tracked(&table, EngineType::Vllm, "http://c:3"), Some(1));
    assert_eq!(find_tracked(&table, EngineType::LlamaCpp, "http://c:3"), None);
}

#[test]
fn overrides_pair_engines_with_urls_and_skip_unknown_types() {
    let keys = ApiKeyResolver::from_pairs(
        &["http://127.0.0.1:8000".into(), "http://127.0.0.1:8001".into()],
        &["key-a".into()],
        Some("global".into()),
    );
    let overrides = engine_overrides(
        &["vLLM".into(), "ollama".into(), "vllm".into(), "vllm".into()],
        &["http://127.0.0.1:8000".into(), "http://127.0.0.1:9999".into(), "http://127.0.0.1:8001".into()],
        &keys,
    );
    assert_eq!(overrides.len(), 2);
    assert_eq!(overrides[0].engine_type, EngineType::Vllm);
    assert_eq!(overrides[0].endpoint, "http://127.0.0.1:8000");
    assert_eq!(overrides[0].api_key.as_deref(), Some("key-a"));
    assert_eq!(overrides[1].endpoint, "http://127.0.0.1:8001");
    assert_eq!(overrides[1].api_key.as_deref(), Some("global"));
}

#[test]
fn a_later_key_for_the_same_url_replaces_an_earlier_one() {
    let r = ApiKeyResolver::from_pairs(
        &["http://a:1".into(), "http://a:1".into(), "http://b:2".into()],
        &["first".into(), "second".into(), "b-key".into(), "extra".into()],
        None,
    );
    assert_eq!(r.resolve("http://a:1"), Some("second".into()));
    assert_eq!(r.resolve("http://c:3"), None);
}

#[test]
fn engine_types_have_display_names() {
    assert_eq!(EngineType::Vllm.display_name(), "vLLM");
    assert_eq!(EngineType::LlamaCpp.display_name(), "llama.cpp");
}

#[test]
fn an_empty_later_key_does_not_replace_an_earlier_one() {
    let r = ApiKeyResolver::from_pairs(
        &["http://a:1".into(), "http://a:1".into()],
        &["first".into(), "".into()],
        Some("global".into()),
    );
    assert_eq!(r.resolve("http://a:1"), Some("first".into()));
    assert_eq!(r.resolve("http://b:2"), Some("global".into()));
}

#[test]
fn a_healthy_poll_shows_the_probe_status_and_fetches_when_due() {
    let mut s = state();
    let plan = s.begin_poll(EngineStatus::Loading, T0);
    assert_eq!(plan.status, EngineStatus::Loading);
    assert!(plan.fetch_model);
    assert!(plan.read_metrics);
    assert!(plan.metrics_disabled(true));
    assert!(!plan.metrics_disabled(false));
    assert_eq!(s.status, EngineStatus::Running);

    s.cache_model(resolved("a/b"), T0);
    let plan = s.begin_poll(EngineStatus::Running, T0 + 1_000);
    assert!(!plan.fetch_model, "a clean model is not asked for again");
}

#[test]
fn a_failed_poll_shows_the_tracked_status_and_reads_nothing() {
    let mut s = state();
    s.cache_model(resolved("a/b"), T0);
    let plan: PollPlan = s.begin_poll(EngineStatus::Error("connection refused".into()), T0 + 1_000);
    assert_eq!(plan.status, EngineStatus::Running, "one failure is not yet a stop");
    assert!(!plan.fetch_model);
    assert!(!plan.read_metrics);
    assert!(!plan.metrics_disabled(true));
    s.begin_poll(EngineStatus::Stopped, T0 + 2_000);
    let plan = s.begin_poll(EngineStatus::Stopped, T0 + 3_000);
    assert_eq!(plan.status, EngineStatus::Stopped);
    assert!(s.cached_model.is_none());
}
