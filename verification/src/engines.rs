//! Inference-engine vocabulary and the per-engine bookkeeping the collector
//! loop keeps between polls.
use vstd::prelude::*;
use crate::text::{lowercase, opt_view, str_eq, to_lowercase};

verus! {

/// Which inference server an engine is.
#[derive(Clone, Copy, Debug, PartialEq, Eq, Hash, Structural)]
pub enum EngineType {
    Vllm,
    LlamaCpp,
}

impl EngineType {
    /// How the engine type is written for people: `vLLM`, `llama.cpp`.
    pub fn display_name(&self) -> (r: String)
        ensures
            *self == EngineType::Vllm ==> r@ == "vLLM"@,
            *self == EngineType::LlamaCpp ==> r@ == "llama.cpp"@,
    {
        match self {
            EngineType::Vllm => String::from_str("vLLM"),
            EngineType::LlamaCpp => String::from_str("llama.cpp"),
        }
    }
}

/// Where an engine runs.
#[derive(Clone, Copy, Debug, PartialEq, Eq, Hash, Structural)]
pub enum DeploymentMode {
    Docker,
    Native,
}

/// What the last health probe said about an engine.
#[derive(Clone, Debug)]
pub enum EngineStatus {
    Running,
    Loading,
    Stopped,
    Error(String),
}

impl PartialEq for EngineStatus {
    fn eq(&self, other: &Self) -> (r: bool) {
        match (self, other) {
            (EngineStatus::Running, EngineStatus::Running) => true,
            (EngineStatus::Loading, EngineStatus::Loading) => true,
            (EngineStatus::Stopped, EngineStatus::Stopped) => true,
            (EngineStatus::Error(a), EngineStatus::Error(b)) => str_eq(a.as_str(), b.as_str()),
            _ => false,
        }
    }
}

impl vstd::std_specs::cmp::PartialEqSpecImpl for EngineStatus {
    open spec fn obeys_eq_spec() -> bool {
        true
    }

    open spec fn eq_spec(&self, other: &Self) -> bool {
        match (*self, *other) {
            (EngineStatus::Running, EngineStatus::Running) => true,
            (EngineStatus::Loading, EngineStatus::Loading) => true,
            (EngineStatus::Stopped, EngineStatus::Stopped) => true,
            (EngineStatus::Error(a), EngineStatus::Error(b)) => a@ == b@,
            _ => false,
        }
    }
}

/// Why model metadata could not be read from the engine's `/v1/models`.
#[derive(Clone, Copy, Debug, PartialEq, Eq, Structural)]
pub enum ModelMetadataError {
    /// `/v1/models` rejected the request as unauthorized (401/403).
    AuthRequired,
    /// `/v1/models` could not be used for any non-auth reason.
    Unavailable,
}

/// Model identity and the metadata known about it.
#[derive(Clone, Debug)]
pub struct ModelInfo {
    pub name: String,
    pub parameter_size: Option<String>,
    pub quantization: Option<String>,
    pub precision: Option<String>,
    pub tensor_type: Option<String>,
    pub model_type: Option<String>,
    pub pipeline_tag: Option<String>,
}

/// The outcome of a model-info fetch: what resolved and why the engine's own
/// answer is missing, if it is.
#[derive(Clone, Debug)]
pub struct ModelResolution {
    pub model: Option<ModelInfo>,
    pub metadata_error: Option<ModelMetadataError>,
}

impl ModelResolution {
    /// Nothing resolved and no error recorded.
    pub fn empty() -> (r: Self)
        ensures
            r.model is None,
            r.metadata_error is None,
    {
        ModelResolution { model: None, metadata_error: None }
    }
}

/// A manually configured engine (`--engine` / `--engine-url`).
#[derive(Clone)]
pub struct EngineOverride {
    pub engine_type: EngineType,
    pub endpoint: String,
    /// Optional bearer token for an auth-gated endpoint. Never printed.
    pub api_key: Option<String>,
}


// ---------------------------------------------------------------------------
// Grace period and model-cache state machine
// ---------------------------------------------------------------------------

/// How long a cleanly resolved model is trusted before `/v1/models` is asked
/// again, in milliseconds.
pub const MODEL_REFRESH_INTERVAL_MS: u64 = 600_000;

/// Retry cooldown while nothing resolved cleanly, in milliseconds.
pub const MODEL_UNRESOLVED_RETRY_MS: u64 = 30_000;

/// How long an engine stays listed after it stopped, in milliseconds.
pub const STOPPED_GRACE_MS: u64 = 30_000;

/// Consecutive failed probes after which an engine counts as stopped.
pub const FAILURES_BEFORE_STOPPED: u32 = 3;

/// Milliseconds from `since` to `now` on the monotonic clock; zero when
/// `now` is earlier.
pub open spec fn elapsed(now: u64, since: u64) -> int {
    if now >= since {
        now - since
    } else {
        0
    }
}

/// What the collector keeps per engine between polls. Times are monotonic
/// milliseconds supplied by the caller; `A` is the engine's adapter.
pub struct EngineState<A> {
    pub adapter: A,
    pub consecutive_failures: u32,
    pub last_seen_ms: u64,
    pub status: EngineStatus,
    pub stopped_at_ms: Option<u64>,
    pub deployment_mode: DeploymentMode,
    /// Last resolved model info, reused every poll instead of re-asking.
    pub cached_model: Option<ModelInfo>,
    /// Why the last fetch could not read metadata from the engine itself.
    pub model_metadata_error: Option<ModelMetadataError>,
    /// When `cached_model` was last populated.
    pub model_fetched_at_ms: Option<u64>,
    /// When a fetch was last attempted, resolved or not.
    pub model_attempted_at_ms: Option<u64>,
    /// Host-namespace PIDs from the most recent detection tick.
    pub pids: Vec<u32>,
    /// Docker container id, when the engine runs in one.
    pub container_id: Option<String>,
}

/// The unresolved-retry cooldown has passed since the last attempt (or
/// there was none).
pub open spec fn retry_due(attempted: Option<u64>, now: u64) -> bool {
    match attempted {
        None => true,
        Some(a) => elapsed(now, a) >= MODEL_UNRESOLVED_RETRY_MS,
    }
}

/// Whether `/v1/models` is to be asked on this tick: a provisional
/// (errored) or missing model retries on the short cooldown, a clean one is
/// refreshed after the refresh interval.
pub open spec fn fetch_due<A>(s: EngineState<A>, now: u64) -> bool {
    if s.model_metadata_error is Some {
        retry_due(s.model_attempted_at_ms, now)
    } else {
        match (s.cached_model, s.model_fetched_at_ms) {
            (Some(_), Some(f)) => elapsed(now, f) >= MODEL_REFRESH_INTERVAL_MS,
            (Some(_), None) => true,
            (None, _) => retry_due(s.model_attempted_at_ms, now),
        }
    }
}

/// The state after a model fetch resolved as `r` at `now`: the attempt and
/// the error are always recorded; the cache only when something resolved.
pub open spec fn after_fetch<A>(s: EngineState<A>, r: ModelResolution, now: u64) -> EngineState<A> {
    if r.model is Some {
        EngineState {
            model_attempted_at_ms: Some(now),
            model_metadata_error: r.metadata_error,
            cached_model: r.model,
            model_fetched_at_ms: Some(now),
            ..s
        }
    } else {
        EngineState {
            model_attempted_at_ms: Some(now),
            model_metadata_error: r.metadata_error,
            ..s
        }
    }
}

/// The state with the model cache dropped, as after a restart.
pub open spec fn invalidated<A>(s: EngineState<A>) -> EngineState<A> {
    EngineState {
        cached_model: None,
        model_metadata_error: None,
        model_fetched_at_ms: None,
        model_attempted_at_ms: None,
        ..s
    }
}

/// `n + 1`, saturating at `u32::MAX`.
pub open spec fn inc_u32(n: u32) -> u32 {
    if n == u32::MAX {
        n
    } else {
        (n + 1) as u32
    }
}

/// The state after a health probe at `now`. A success resets the failure
/// count and marks the engine running; the third consecutive failure marks
/// it stopped, and the first time it does so also drops the model cache.
pub open spec fn after_probe<A>(s: EngineState<A>, success: bool, now: u64) -> EngineState<A> {
    if success {
        EngineState {
            consecutive_failures: 0,
            last_seen_ms: now,
            status: EngineStatus::Running,
            stopped_at_ms: None,
            ..s
        }
    } else {
        let f = inc_u32(s.consecutive_failures);
        if f >= FAILURES_BEFORE_STOPPED {
            if s.stopped_at_ms is None {
                EngineState {
                    consecutive_failures: f,
                    stopped_at_ms: Some(now),
                    status: EngineStatus::Stopped,
                    ..invalidated(s)
                }
            } else {
                EngineState { consecutive_failures: f, status: EngineStatus::Stopped, ..s }
            }
        } else {
            EngineState { consecutive_failures: f, ..s }
        }
    }
}

/// The engine has been stopped for longer than the grace period.
pub open spec fn removable<A>(s: EngineState<A>, now: u64) -> bool {
    match s.stopped_at_ms {
        Some(t) => s.status is Stopped && elapsed(now, t) > STOPPED_GRACE_MS,
        None => false,
    }
}

fn elapsed_ms(now: u64, since: u64) -> (r: u64)
    ensures
        r == elapsed(now, since),
{
    now.saturating_sub(since)
}

fn retry_due_exec(attempted: Option<u64>, now: u64) -> (r: bool)
    ensures
        r == retry_due(attempted, now),
{
    match attempted {
        None => true,
        Some(a) => elapsed_ms(now, a) >= MODEL_UNRESOLVED_RETRY_MS,
    }
}

impl<A> EngineState<A> {
    /// A freshly tracked engine, seen at `now_ms`.
    pub fn new(adapter: A, deployment_mode: DeploymentMode, now_ms: u64) -> (r: Self)
        ensures
            r.adapter == adapter,
            r.consecutive_failures == 0,
            r.last_seen_ms == now_ms,
            r.status is Running,
            r.stopped_at_ms is None,
            r.deployment_mode == deployment_mode,
            r.cached_model is None,
            r.model_metadata_error is None,
            r.model_fetched_at_ms is None,
            r.model_attempted_at_ms is None,
            r.pids@.len() == 0,
            r.container_id is None,
    {
        EngineState {
            adapter,
            consecutive_failures: 0,
            last_seen_ms: now_ms,
            status: EngineStatus::Running,
            stopped_at_ms: None,
            deployment_mode,
            cached_model: None,
            model_metadata_error: None,
            model_fetched_at_ms: None,
            model_attempted_at_ms: None,
            pids: Vec::new(),
            container_id: None,
        }
    }

    /// Whether `/v1/models` should be asked on this poll tick.
    pub fn should_fetch_model(&self, now_ms: u64) -> (r: bool)
        ensures
            r == fetch_due(*self, now_ms),
    {
        if self.model_metadata_error.is_some() {
            return retry_due_exec(self.model_attempted_at_ms, now_ms);
        }
        match (&self.cached_model, self.model_fetched_at_ms) {
            (Some(_), Some(fetched)) => elapsed_ms(now_ms, fetched) >= MODEL_REFRESH_INTERVAL_MS,
            (Some(_), None) => true,
            (None, _) => retry_due_exec(self.model_attempted_at_ms, now_ms),
        }
    }

    /// Records the outcome of a model-info fetch made at `now_ms`.
    pub fn cache_model(&mut self, resolution: ModelResolution, now_ms: u64)
        ensures
            *final(self) == after_fetch(*old(self), resolution, now_ms),
    {
        self.model_attempted_at_ms = Some(now_ms);
        self.model_metadata_error = resolution.metadata_error;
        if resolution.model.is_some() {
            self.cached_model = resolution.model;
            self.model_fetched_at_ms = Some(now_ms);
        }
    }

    /// Drops the cached model so the next successful probe re-resolves it.
    fn invalidate_model_cache(&mut self)
        ensures
            *final(self) == invalidated(*old(self)),
    {
        self.cached_model = None;
        self.model_metadata_error = None;
        self.model_fetched_at_ms = None;
        self.model_attempted_at_ms = None;
    }

    /// Updates the state with the result of a health probe made at `now_ms`.
    pub fn record_probe_result(&mut self, success: bool, now_ms: u64)
        ensures
            *final(self) == after_probe(*old(self), success, now_ms),
    {
        if success {
            self.consecutive_failures = 0;
            self.last_seen_ms = now_ms;
            self.status = EngineStatus::Running;
            self.stopped_at_ms = None;
        } else {
            self.consecutive_failures = self.consecutive_failures.saturating_add(1);
            if self.consecutive_failures >= FAILURES_BEFORE_STOPPED {
                if self.stopped_at_ms.is_none() {
                    self.stopped_at_ms = Some(now_ms);
                    self.invalidate_model_cache();
                }
                self.status = EngineStatus::Stopped;
            }
        }
    }

    /// Whether the engine has been stopped for longer than the grace period
    /// and is to leave the engine list.
    pub fn should_remove(&self, now_ms: u64) -> (r: bool)
        ensures
            r == removable(*self, now_ms),
    {
        match self.stopped_at_ms {
            Some(stopped) => matches!(self.status, EngineStatus::Stopped) && elapsed_ms(
                now_ms,
                stopped,
            ) > STOPPED_GRACE_MS,
            None => false,
        }
    }
}

/// The probe answered that the engine is up: running or still loading.
pub open spec fn probe_succeeded(health: EngineStatus) -> bool {
    health is Running || health is Loading
}

/// What one poll tick does with an engine once its health probe answered.
#[derive(Clone, Debug)]
pub struct PollPlan {
    /// The status to show: the probe's own when the engine is up (it may
    /// say `Loading`), else the tracked one.
    pub status: EngineStatus,
    /// Ask `/v1/models` (then record the answer with `cache_model`) before
    /// showing the model; otherwise the cached model is shown as it is.
    pub fetch_model: bool,
    /// Read `/metrics`; a stopped engine has none to report.
    pub read_metrics: bool,
}

impl PollPlan {
    /// Whether the snapshot shows the metrics-disabled hint, given the
    /// adapter's flag after this tick's metrics read: only while the engine
    /// is up, as the flag is what that read saw.
    pub fn metrics_disabled(&self, adapter_flag: bool) -> (r: bool)
        ensures
            r == (self.read_metrics && adapter_flag),
    {
        self.read_metrics && adapter_flag
    }
}

fn copy_status(s: &EngineStatus) -> (r: EngineStatus)
    ensures
        r == *s,
{
    match s {
        EngineStatus::Running => EngineStatus::Running,
        EngineStatus::Loading => EngineStatus::Loading,
        EngineStatus::Stopped => EngineStatus::Stopped,
        EngineStatus::Error(m) => EngineStatus::Error(m.clone()),
    }
}

impl<A> EngineState<A> {
    /// Starts a poll tick at `now_ms` with the health probe's answer: the
    /// probe is recorded (up when `Running` or `Loading`), and the plan says
    /// what to show and what to ask next: the model only when the engine is
    /// up and a fetch is due, the metrics only when it is up.
    pub fn begin_poll(&mut self, health: EngineStatus, now_ms: u64) -> (plan: PollPlan)
        ensures
            *final(self) == after_probe(*old(self), probe_succeeded(health), now_ms),
            plan.status == (if probe_succeeded(health) {
                health
            } else {
                final(self).status
            }),
            plan.fetch_model == (probe_succeeded(health) && fetch_due(*final(self), now_ms)),
            plan.read_metrics == probe_succeeded(health),
    {
        let success = match health {
            EngineStatus::Running | EngineStatus::Loading => true,
            _ => false,
        };
        self.record_probe_result(success, now_ms);
        let fetch_model = success && self.should_fetch_model(now_ms);
        let status = if success {
            health
        } else {
            copy_status(&self.status)
        };
        PollPlan { status, fetch_model, read_metrics: success }
    }
}

/// Attaches a newly discovered container to an engine that had none; an
/// engine that already has one keeps it. Learning the container also
/// settles that the engine runs in Docker. Returns whether anything changed.
pub fn adopt_container<A>(state: &mut EngineState<A>, container_id: Option<&str>) -> (changed: bool)
    ensures
        changed == (old(state).container_id is None && container_id is Some),
        changed ==> opt_view(final(state).container_id) == Some(container_id->0@)
            && final(state).deployment_mode == DeploymentMode::Docker,
        !changed ==> *final(state) == *old(state),
        changed ==> (EngineState {
            container_id: final(state).container_id,
            deployment_mode: DeploymentMode::Docker,
            ..*old(state)
        }) == *final(state),
{
    if state.container_id.is_some() {
        return false;
    }
    match container_id {
        None => false,
        Some(id) => {
            state.container_id = Some(id.to_owned());
            state.deployment_mode = DeploymentMode::Docker;
            true
        },
    }
}

// ---------------------------------------------------------------------------
// Laws of the engine state
// ---------------------------------------------------------------------------

/// A freshly tracked engine asks for its model on the first tick.
pub proof fn law_fresh_engine_fetches_model<A>(s: EngineState<A>, now_ms: u64)
    requires
        s.cached_model is None,
        s.model_metadata_error is None,
        s.model_attempted_at_ms is None,
    ensures
        fetch_due(s, now_ms),
{
}

/// A model that resolved cleanly is reused, not re-fetched, until the
/// refresh interval has passed.
pub proof fn law_clean_model_is_trusted_for_the_refresh_interval<A>(
    s: EngineState<A>,
    r: ModelResolution,
    fetched_ms: u64,
    now_ms: u64,
)
    requires
        r.model is Some,
        r.metadata_error is None,
        fetched_ms <= now_ms,
    ensures
        fetch_due(after_fetch(s, r, fetched_ms), now_ms) == (now_ms - fetched_ms
            >= MODEL_REFRESH_INTERVAL_MS),
{
}

/// A fetch that carried a metadata error is provisional, whatever name it
/// produced: it is retried on the short cooldown, not the refresh interval.
pub proof fn law_errored_fetch_retries_on_the_cooldown<A>(
    s: EngineState<A>,
    r: ModelResolution,
    fetched_ms: u64,
    now_ms: u64,
)
    requires
        r.metadata_error is Some,
        fetched_ms <= now_ms,
    ensures
        fetch_due(after_fetch(s, r, fetched_ms), now_ms) == (now_ms - fetched_ms
            >= MODEL_UNRESOLVED_RETRY_MS),
        after_fetch(s, r, fetched_ms).model_metadata_error == r.metadata_error,
        r.model is None ==> after_fetch(s, r, fetched_ms).cached_model == s.cached_model,
{
}

/// A clean fetch clears a standing metadata warning.
pub proof fn law_clean_fetch_clears_the_warning<A>(s: EngineState<A>, r: ModelResolution, now_ms: u64)
    requires
        r.metadata_error is None,
    ensures
        after_fetch(s, r, now_ms).model_metadata_error is None,
{
}

/// A successful probe keeps the model cache as it is, so it does not cause a
/// re-fetch, and brings a stopped engine back to running.
pub proof fn law_success_keeps_the_model_cache<A>(s: EngineState<A>, probe_ms: u64, now_ms: u64)
    ensures
        after_probe(s, true, probe_ms).cached_model == s.cached_model,
        after_probe(s, true, probe_ms).model_metadata_error == s.model_metadata_error,
        fetch_due(after_probe(s, true, probe_ms), now_ms) == fetch_due(s, now_ms),
        after_probe(s, true, probe_ms).status is Running,
        !removable(after_probe(s, true, probe_ms), now_ms),
{
}

/// Three consecutive failed probes of a running engine mark it stopped at
/// the third, and drop its model cache (and warning) so that a later
/// recovery re-resolves the model.
pub proof fn law_third_failure_stops_and_invalidates<A>(
    s: EngineState<A>,
    t1: u64,
    t2: u64,
    t3: u64,
    now_ms: u64,
)
    requires
        s.consecutive_failures == 0,
        s.stopped_at_ms is None,
    ensures
        ({
            let s3 = after_probe(after_probe(after_probe(s, false, t1), false, t2), false, t3);
            &&& s3.status is Stopped
            &&& s3.stopped_at_ms == Some(t3)
            &&& s3.cached_model is None
            &&& s3.model_metadata_error is None
            &&& fetch_due(s3, now_ms)
        }),
        after_probe(after_probe(s, false, t1), false, t2).status == s.status,
{
}

/// A stopped engine leaves the list exactly when more than the grace period
/// has passed since it stopped.
pub proof fn law_stopped_engine_removed_after_grace<A>(s: EngineState<A>, now_ms: u64)
    requires
        s.status is Stopped,
        s.stopped_at_ms is Some,
        s.stopped_at_ms->0 <= now_ms,
    ensures
        removable(s, now_ms) == (now_ms - s.stopped_at_ms->0 > STOPPED_GRACE_MS),
{
}

// ---------------------------------------------------------------------------
// API key resolution
// ---------------------------------------------------------------------------

/// The `(url, key)` pairs of the first `n` index-paired URLs and keys whose
/// key is not empty.
pub open spec fn paired_upto(urls: Seq<Seq<char>>, keys: Seq<Seq<char>>, n: int) -> Seq<
    (Seq<char>, Seq<char>),
>
    decreases n,
{
    if n <= 0 {
        Seq::empty()
    } else {
        let p = paired_upto(urls, keys, n - 1);
        if keys[n - 1].len() > 0 {
            p.push((urls[n - 1], keys[n - 1]))
        } else {
            p
        }
    }
}

/// The shorter of two lengths.
pub open spec fn min_len(a: int, b: int) -> int {
    if a <= b {
        a
    } else {
        b
    }
}

/// URLs and keys paired by index; extra entries on either side and empty
/// keys are left out.
pub open spec fn paired(urls: Seq<Seq<char>>, keys: Seq<Seq<char>>) -> Seq<(Seq<char>, Seq<char>)> {
    paired_upto(urls, keys, min_len(urls.len() as int, keys.len() as int))
}

/// The key of the last pair for `endpoint` (a later pair for the same URL
/// replaces an earlier one).
pub open spec fn pair_key(pairs: Seq<(Seq<char>, Seq<char>)>, endpoint: Seq<char>) -> Option<
    Seq<char>,
>
    decreases pairs.len(),
{
    if pairs.len() == 0 {
        None
    } else if pairs.last().0 == endpoint {
        Some(pairs.last().1)
    } else {
        pair_key(pairs.drop_last(), endpoint)
    }
}

/// A global key counts only when it is not empty.
pub open spec fn nonempty(o: Option<Seq<char>>) -> Option<Seq<char>> {
    match o {
        Some(g) => if g.len() > 0 {
            Some(g)
        } else {
            None
        },
        None => None,
    }
}

/// The per-endpoint keys and the global fallback, as plain values.
pub struct KeyTable {
    pub pairs: Seq<(Seq<char>, Seq<char>)>,
    pub global: Option<Seq<char>>,
}

/// The key for `endpoint`: its own key wins, else the global fallback.
pub open spec fn key_for(t: KeyTable, endpoint: Seq<char>) -> Option<Seq<char>> {
    match pair_key(t.pairs, endpoint) {
        Some(k) => Some(k),
        None => t.global,
    }
}

/// Resolves the bearer token for an engine endpoint: an explicit
/// per-endpoint key wins, otherwise the global fallback.
#[derive(Clone, Default)]
pub struct ApiKeyResolver {
    per_endpoint: Vec<(String, String)>,
    global: Option<String>,
}

/// The views of a list of string pairs.
pub open spec fn pair_views(v: Seq<(String, String)>) -> Seq<(Seq<char>, Seq<char>)> {
    v.map_values(|p: (String, String)| (p.0@, p.1@))
}

impl View for ApiKeyResolver {
    type V = KeyTable;

    closed spec fn view(&self) -> KeyTable {
        KeyTable { pairs: pair_views(self.per_endpoint@), global: opt_view(self.global) }
    }
}

/// The views of a list of strings.
pub open spec fn string_views(v: Seq<String>) -> Seq<Seq<char>> {
    v.map_values(|s: String| s@)
}

impl ApiKeyResolver {
    /// Builds from index-paired `--engine-url` / `--engine-api-key` lists
    /// plus a global fallback. Extra keys (no matching URL) and empty keys
    /// are ignored.
    pub fn from_pairs(engine_urls: &[String], engine_api_keys: &[String], global: Option<String>) -> (r: Self)
        ensures
            r@.pairs == paired(string_views(engine_urls@), string_views(engine_api_keys@)),
            r@.global == nonempty(opt_view(global)),
    {
        let ghost us = string_views(engine_urls@);
        let ghost ks = string_views(engine_api_keys@);
        let n = if engine_urls.len() <= engine_api_keys.len() {
            engine_urls.len()
        } else {
            engine_api_keys.len()
        };
        let mut per_endpoint: Vec<(String, String)> = Vec::new();
        let mut i: usize = 0;
        while i < n
            invariant
                us == string_views(engine_urls@),
                ks == string_views(engine_api_keys@),
                n == min_len(us.len() as int, ks.len() as int),
                n <= engine_urls@.len(),
                n <= engine_api_keys@.len(),
                i <= n,
                pair_views(per_endpoint@) == paired_upto(us, ks, i as int),
            decreases n - i,
        {
            let key = &engine_api_keys[i];
            if key.unicode_len() > 0 {
                let ghost before = per_endpoint@;
                per_endpoint.push((engine_urls[i].clone(), key.clone()));
                assert(pair_views(per_endpoint@) =~= pair_views(before).push((us[i as int], ks[i as int])));
            }
            i = i + 1;
        }
        let global = match global {
            Some(g) => if g.unicode_len() > 0 {
                Some(g)
            } else {
                None
            },
            None => None,
        };
        ApiKeyResolver { per_endpoint, global }
    }

    /// The key to use for `endpoint`, if any.
    pub fn resolve(&self, endpoint: &str) -> (r: Option<String>)
        ensures
            opt_view(r) == key_for(self@, endpoint@),
    {
        let ghost ps = pair_views(self.per_endpoint@);
        let mut i: usize = self.per_endpoint.len();
        assert(ps.take(ps.len() as int) =~= ps);
        while i > 0
            invariant
                ps == pair_views(self.per_endpoint@),
                i <= ps.len(),
                pair_key(ps, endpoint@) == pair_key(ps.take(i as int), endpoint@),
            decreases i,
        {
            let (url, key) = &self.per_endpoint[i - 1];
            assert(ps.take(i as int).drop_last() =~= ps.take(i - 1));
            if str_eq(url.as_str(), endpoint) {
                return Some(key.clone());
            }
            i = i - 1;
        }
        match &self.global {
            Some(g) => Some(g.clone()),
            None => None,
        }
    }
}

proof fn lemma_paired_keys_nonempty(urls: Seq<Seq<char>>, keys: Seq<Seq<char>>, n: int)
    requires
        n <= keys.len(),
    ensures
        forall|i: int|
            0 <= i < paired_upto(urls, keys, n).len() ==> (#[trigger] paired_upto(urls, keys, n)[i]).1.len()
                > 0,
    decreases n,
{
    if n > 0 {
        lemma_paired_keys_nonempty(urls, keys, n - 1);
        let p = paired_upto(urls, keys, n - 1);
        if keys[n - 1].len() > 0 {
            let q = p.push((urls[n - 1], keys[n - 1]));
            assert forall|i: int| 0 <= i < q.len() implies (#[trigger] q[i]).1.len() > 0 by {
                if i < p.len() {
                    assert(q[i] == p[i]);
                }
            }
        }
    }
}

proof fn lemma_pair_key_from_pairs(pairs: Seq<(Seq<char>, Seq<char>)>, endpoint: Seq<char>)
    ensures
        pair_key(pairs, endpoint) matches Some(k) ==> exists|i: int|
            0 <= i < pairs.len() && #[trigger] pairs[i] == (endpoint, k),
        pair_key(pairs, endpoint) is None ==> forall|i: int|
            0 <= i < pairs.len() ==> (#[trigger] pairs[i]).0 != endpoint,
    decreases pairs.len(),
{
    if pairs.len() > 0 {
        lemma_pair_key_from_pairs(pairs.drop_last(), endpoint);
        if pair_key(pairs, endpoint) is None {
            assert forall|i: int| 0 <= i < pairs.len() implies (#[trigger] pairs[i]).0 != endpoint by {
                if i < pairs.len() - 1 {
                    assert(pairs[i] == pairs.drop_last()[i]);
                }
            }
        } else if pairs.last().0 != endpoint {
            let k = pair_key(pairs, endpoint)->0;
            let i = choose|i: int| 0 <= i < pairs.drop_last().len() && #[trigger] pairs.drop_last()[i] == (endpoint, k);
            assert(pairs[i] == pairs.drop_last()[i]);
        } else {
            assert(pairs[pairs.len() - 1] == (endpoint, pairs.last().1));
        }
    }
}

/// Key resolution: an endpoint given its own (non-empty) key gets it — the
/// last one given for that URL — over the global key; an endpoint without
/// one gets the global key; and an empty key, paired or global, is never
/// handed out.
pub proof fn law_key_resolution(
    urls: Seq<Seq<char>>,
    keys: Seq<Seq<char>>,
    global: Option<Seq<char>>,
    endpoint: Seq<char>,
)
    ensures
        ({
            let t = KeyTable { pairs: paired(urls, keys), global: nonempty(global) };
            &&& key_for(t, endpoint) matches Some(k) ==> k.len() > 0
            &&& (forall|i: int|
                0 <= i < t.pairs.len() ==> (#[trigger] t.pairs[i]).0 != endpoint) ==> key_for(
                t,
                endpoint,
            ) == nonempty(global)
            &&& (exists|i: int| 0 <= i < t.pairs.len() && (#[trigger] t.pairs[i]).0 == endpoint)
                ==> (key_for(t, endpoint) matches Some(k) && exists|i: int|
                0 <= i < t.pairs.len() && #[trigger] t.pairs[i] == (endpoint, k))
        }),
{
    let n = min_len(urls.len() as int, keys.len() as int);
    lemma_paired_keys_nonempty(urls, keys, n);
    let pairs = paired(urls, keys);
    lemma_pair_key_from_pairs(pairs, endpoint);
    if pair_key(pairs, endpoint) is Some {
        let k = pair_key(pairs, endpoint)->0;
        let i = choose|i: int| 0 <= i < pairs.len() && #[trigger] pairs[i] == (endpoint, k);
        assert(pairs[i].1.len() > 0);
    }
}

/// A successful probe ends a stop: the engine is running, its failure
/// count is back to zero, it was last seen at the probe, and no stop time
/// is kept. So when a restarted engine stops again, three failures later,
/// the stop is stamped afresh at the third failure, the model cache is
/// dropped again, and the grace period runs from that new stop.
pub proof fn law_recovery_resets_the_stop<A>(
    s: EngineState<A>,
    t0: u64,
    t1: u64,
    t2: u64,
    t3: u64,
    now_ms: u64,
)
    ensures
        ({
            let up = after_probe(s, true, t0);
            &&& up.status == EngineStatus::Running
            &&& up.stopped_at_ms is None
            &&& up.consecutive_failures == 0
            &&& up.last_seen_ms == t0
            &&& up.cached_model == s.cached_model
        }),
        ({
            let down = after_probe(
                after_probe(after_probe(after_probe(s, true, t0), false, t1), false, t2),
                false,
                t3,
            );
            &&& down.status == EngineStatus::Stopped
            &&& down.stopped_at_ms == Some(t3)
            &&& down.cached_model is None
            &&& down.model_metadata_error is None
            &&& down.model_fetched_at_ms is None
            &&& down.model_attempted_at_ms is None
            &&& removable(down, now_ms) == (now_ms as int > t3 as int + STOPPED_GRACE_MS as int)
        }),
{
}

/// Position `j` of the `--engine-url` / `--engine-api-key` lists gives
/// `endpoint` a non-empty key.
pub open spec fn keyed_at(urls: Seq<Seq<char>>, keys: Seq<Seq<char>>, endpoint: Seq<char>, j: int) -> bool {
    urls[j] == endpoint && keys[j].len() > 0
}

proof fn lemma_last_keyed_pair(urls: Seq<Seq<char>>, keys: Seq<Seq<char>>, endpoint: Seq<char>, m: int)
    requires
        0 <= m <= urls.len(),
        m <= keys.len(),
    ensures
        (forall|j: int| 0 <= j < m ==> !#[trigger] keyed_at(urls, keys, endpoint, j)) ==> pair_key(
            paired_upto(urls, keys, m),
            endpoint,
        ) is None,
        forall|j: int|
            0 <= j < m && #[trigger] keyed_at(urls, keys, endpoint, j) && (forall|l: int|
                j < l < m ==> !keyed_at(urls, keys, endpoint, l)) ==> pair_key(
                paired_upto(urls, keys, m),
                endpoint,
            ) == Some(keys[j]),
    decreases m,
{
    if m > 0 {
        lemma_last_keyed_pair(urls, keys, endpoint, m - 1);
        let p = paired_upto(urls, keys, m - 1);
        if keys[m - 1].len() > 0 {
            let q = p.push((urls[m - 1], keys[m - 1]));
            assert(q.drop_last() =~= p);
        }
        if keyed_at(urls, keys, endpoint, m - 1) {
            assert forall|j: int|
                0 <= j < m && #[trigger] keyed_at(urls, keys, endpoint, j) && (forall|l: int|
                    j < l < m ==> !keyed_at(urls, keys, endpoint, l)) implies j == m - 1 by {
                if j < m - 1 {
                    assert(!keyed_at(urls, keys, endpoint, m - 1));
                }
            }
        } else {
            assert forall|j: int|
                0 <= j < m && #[trigger] keyed_at(urls, keys, endpoint, j) && (forall|l: int|
                    j < l < m ==> !keyed_at(urls, keys, endpoint, l)) implies pair_key(
                paired_upto(urls, keys, m),
                endpoint,
            ) == Some(keys[j]) by {
                assert(j < m - 1);
                assert forall|l: int| j < l < m - 1 implies !keyed_at(urls, keys, endpoint, l) by {}
            }
        }
    }
}

/// The last pair wins: the key for `endpoint` is the key at the highest
/// position of the index-paired lists (up to the shorter one's length) whose
/// URL is `endpoint` and whose key is not empty; where no position gives it
/// one, it is the global key, unless that is empty.
pub proof fn law_last_pair_wins(
    urls: Seq<Seq<char>>,
    keys: Seq<Seq<char>>,
    global: Option<Seq<char>>,
    endpoint: Seq<char>,
)
    ensures
        ({
            let n = min_len(urls.len() as int, keys.len() as int);
            let t = KeyTable { pairs: paired(urls, keys), global: nonempty(global) };
            &&& forall|j: int|
                0 <= j < n && #[trigger] keyed_at(urls, keys, endpoint, j) && (forall|l: int|
                    j < l < n ==> !keyed_at(urls, keys, endpoint, l)) ==> key_for(t, endpoint) == Some(
                    keys[j],
                )
            &&& (forall|j: int| 0 <= j < n ==> !#[trigger] keyed_at(urls, keys, endpoint, j))
                ==> key_for(t, endpoint) == nonempty(global)
        }),
{
    let n = min_len(urls.len() as int, keys.len() as int);
    lemma_last_keyed_pair(urls, keys, endpoint, n);
}

// ---------------------------------------------------------------------------
// Manual overrides
// ---------------------------------------------------------------------------

/// The `(endpoint, api_key)` of the overrides built from the first `n`
/// index-paired `--engine` / `--engine-url` values: one per pair whose engine
/// name is `vllm` in any letter case; other names are ignored.
pub open spec fn overrides_upto(
    engines: Seq<Seq<char>>,
    urls: Seq<Seq<char>>,
    keys: KeyTable,
    n: int,
) -> Seq<(Seq<char>, Option<Seq<char>>)>
    decreases n,
{
    if n <= 0 {
        Seq::empty()
    } else {
        let p = overrides_upto(engines, urls, keys, n - 1);
        if lowercase(engines[n - 1]) == "vllm"@ {
            p.push((urls[n - 1], key_for(keys, urls[n - 1])))
        } else {
            p
        }
    }
}

/// An override as plain values: its endpoint and key.
pub open spec fn override_view(o: EngineOverride) -> (Seq<char>, Option<Seq<char>>) {
    (o.endpoint@, opt_view(o.api_key))
}

/// Builds the manual engine overrides from the index-paired `--engine` and
/// `--engine-url` lists: a `vllm` entry (any letter case) becomes a vLLM
/// override with the key resolved for its URL; an unknown engine type is
/// ignored, as are entries without a partner.
pub fn engine_overrides(engines: &[String], urls: &[String], keys: &ApiKeyResolver) -> (r: Vec<
    EngineOverride,
>)
    ensures
        r@.map_values(|o: EngineOverride| override_view(o)) == overrides_upto(
            string_views(engines@),
            string_views(urls@),
            keys@,
            min_len(engines@.len() as int, urls@.len() as int),
        ),
        forall|i: int| 0 <= i < r@.len() ==> (#[trigger] r@[i]).engine_type == EngineType::Vllm,
{
    let ghost es = string_views(engines@);
    let ghost us = string_views(urls@);
    let n = if engines.len() <= urls.len() {
        engines.len()
    } else {
        urls.len()
    };
    let mut out: Vec<EngineOverride> = Vec::new();
    let mut i: usize = 0;
    while i < n
        invariant
            es == string_views(engines@),
            us == string_views(urls@),
            n <= engines@.len(),
            n <= urls@.len(),
            i <= n,
            out@.map_values(|o: EngineOverride| override_view(o)) == overrides_upto(
                es,
                us,
                keys@,
                i as int,
            ),
            forall|j: int| 0 <= j < out@.len() ==> (#[trigger] out@[j]).engine_type == EngineType::Vllm,
        decreases n - i,
    {
        let name = to_lowercase(engines[i].as_str());
        if str_eq(name.as_str(), "vllm") {
            let url = &urls[i];
            let ov = EngineOverride {
                engine_type: EngineType::Vllm,
                endpoint: url.clone(),
                api_key: keys.resolve(url.as_str()),
            };
            let ghost before = out@;
            out.push(ov);
            assert(out@.map_values(|o: EngineOverride| override_view(o)) =~= before.map_values(
                |o: EngineOverride| override_view(o),
            ).push(override_view(ov)));
        }
        i = i + 1;
    }
    out
}

// ---------------------------------------------------------------------------
// The engine table
// ---------------------------------------------------------------------------

/// One engine the collector tracks, keyed by engine type and endpoint.
pub struct TrackedEngine<A> {
    pub engine_type: EngineType,
    pub endpoint: String,
    pub state: EngineState<A>,
}

/// Some key of `detected` is this engine type and endpoint.
pub open spec fn is_detected(detected: Seq<(EngineType, String)>, t: EngineType, endpoint: Seq<char>) -> bool {
    exists|i: int| 0 <= i < detected.len() && (#[trigger] detected[i]).0 == t && detected[i].1@ == endpoint
}

/// The first entry for this engine type and endpoint.
pub fn find_tracked<A>(entries: &Vec<TrackedEngine<A>>, t: EngineType, endpoint: &str) -> (r: Option<usize>)
    ensures
        match r {
            Some(i) => i < entries@.len() && entries@[i as int].engine_type == t && entries@[i as int].endpoint@ == endpoint@
                && forall|j: int| 0 <= j < i ==> !((#[trigger] entries@[j]).engine_type == t && entries@[j].endpoint@ == endpoint@),
            None => forall|j: int| 0 <= j < entries@.len() ==> !((#[trigger] entries@[j]).engine_type == t && entries@[j].endpoint@ == endpoint@),
        },
{
    let mut i: usize = 0;
    while i < entries.len()
        invariant
            i <= entries@.len(),
            forall|j: int| 0 <= j < i ==> !((#[trigger] entries@[j]).engine_type == t && entries@[j].endpoint@ == endpoint@),
        decreases entries.len() - i,
    {
        if entries[i].engine_type == t && str_eq(entries[i].endpoint.as_str(), endpoint) {
            return Some(i);
        }
        i = i + 1;
    }
    None
}

fn key_detected(detected: &[(EngineType, String)], t: EngineType, endpoint: &str) -> (r: bool)
    ensures
        r == is_detected(detected@, t, endpoint@),
{
    let mut i: usize = 0;
    while i < detected.len()
        invariant
            i <= detected@.len(),
            forall|j: int| 0 <= j < i ==> !((#[trigger] detected@[j]).0 == t && detected@[j].1@ == endpoint@),
        decreases detected.len() - i,
    {
        if detected[i].0 == t && str_eq(detected[i].1.as_str(), endpoint) {
            return true;
        }
        i = i + 1;
    }
    false
}

/// Clears the PID set of every engine the current detection pass did not
/// see: their snapshots keep being emitted through the grace period, but
/// stale PIDs could be recycled onto unrelated processes.
pub fn clear_stale_pids<A>(entries: &mut Vec<TrackedEngine<A>>, detected: &[(EngineType, String)])
    ensures
        final(entries)@.len() == old(entries)@.len(),
        forall|i: int| 0 <= i < old(entries)@.len() ==> {
            let e = #[trigger] old(entries)@[i];
            let f = final(entries)@[i];
            &&& f.engine_type == e.engine_type
            &&& f.endpoint == e.endpoint
            &&& (EngineState { pids: f.state.pids, ..e.state }) == f.state
            &&& f.state.pids@ == (if is_detected(detected@, e.engine_type, e.endpoint@) {
                e.state.pids@
            } else {
                Seq::empty()
            })
        },
{
    let mut taken: Vec<TrackedEngine<A>> = Vec::new();
    std::mem::swap(entries, &mut taken);
    let ghost src = taken@;
    for e in it: taken
        invariant
            it.seq() == src,
            entries@.len() == it.index(),
            forall|i: int| 0 <= i < it.index() ==> {
                let e = #[trigger] src[i];
                let f = entries@[i];
                &&& f.engine_type == e.engine_type
                &&& f.endpoint == e.endpoint
                &&& (EngineState { pids: f.state.pids, ..e.state }) == f.state
                &&& f.state.pids@ == (if is_detected(detected@, e.engine_type, e.endpoint@) {
                    e.state.pids@
                } else {
                    Seq::empty()
                })
            },
    {
        let mut e = e;
        if !key_detected(detected, e.engine_type, e.endpoint.as_str()) {
            e.state.pids = Vec::new();
        }
        entries.push(e);
    }
}

/// Whether an entry stays in the table at `now_ms`.
pub open spec fn still_listed<A>(now_ms: u64) -> spec_fn(TrackedEngine<A>) -> bool {
    |e: TrackedEngine<A>| !removable(e.state, now_ms)
}

/// Drops the engines that have been stopped for longer than the grace
/// period, keeping the others in order.
pub fn remove_expired<A>(entries: &mut Vec<TrackedEngine<A>>, now_ms: u64)
    ensures
        final(entries)@ == old(entries)@.filter(still_listed(now_ms)),
{
    let mut taken: Vec<TrackedEngine<A>> = Vec::new();
    std::mem::swap(entries, &mut taken);
    let ghost src = taken@;
    assert(src.take(0).filter(still_listed(now_ms)) =~= Seq::<TrackedEngine<A>>::empty()) by {
        reveal(Seq::filter);
    }
    for e in it: taken
        invariant
            it.seq() == src,
            entries@ == src.take(it.index() as int).filter(still_listed(now_ms)),
    {
        let ghost i = it.index() as int;
        proof {
            reveal(Seq::filter);
            assert(src.take(i + 1).drop_last() =~= src.take(i));
            assert(src.take(i + 1).last() == e);
        }
        if !e.state.should_remove(now_ms) {
            entries.push(e);
        }
    }
    assert(src.take(src.len() as int) =~= src);
}

} // verus!
