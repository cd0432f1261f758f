//! Splunk HEC export: the target configuration, the idle gate, how a HEC
//! answer is read, and the exporter's state machine.
//!
//! The HTTP requests, the clock and the event JSON live outside; the exporter
//! here decides what is sent, what is kept for a retry, what is dropped and
//! what the status surface reports.
use vstd::prelude::*;
use vstd::string::*;
use std::collections::VecDeque;
use crate::text::{has_prefix, opt_view, str_eq, str_starts_with, to_chars, trim, trimmed};
use crate::engines::EngineType;

verus! {

/// Metric-event backlog cap; the oldest event is dropped beyond it.
pub const METRIC_BACKLOG_CAP: usize = 1000;

/// GPU-event backlog cap; the oldest event is dropped beyond it.
pub const EVENT_BACKLOG_CAP: usize = 1000;

/// "Recent" window of the idle gate, in milliseconds.
pub const IDLE_WINDOW_MS: u64 = 60_000;

/// Liveness probe / connection heartbeat cadence, in milliseconds.
pub const PROBE_INTERVAL_MS: u64 = 60_000;

/// The metrics index used when the document names none.
pub fn default_index() -> (r: String)
    ensures
        r@ == "metrics"@,
{
    String::from_str("metrics")
}

/// The events index used when the document names none.
pub fn default_events_index() -> (r: String)
    ensures
        r@ == "main"@,
{
    String::from_str("main")
}

// ---------------------------------------------------------------------------
// Configuration
// ---------------------------------------------------------------------------

/// The `export.hec` section of the dashboard document.
#[derive(Clone, Debug, PartialEq)]
pub struct HecTarget {
    pub url: String,
    pub token: String,
    pub index: String,
    pub events_index: String,
}

/// A URL that can possibly ingest: an `http://` or `https://` one.
pub open spec fn usable_url(url: Seq<char>) -> bool {
    has_prefix(url, "https://"@) || has_prefix(url, "http://"@)
}

impl HecTarget {
    /// Whether the target can possibly ingest (an HTTP(S) URL). A target that
    /// cannot is configured-but-misconfigured, not "not configured".
    pub fn usable(&self) -> (r: bool)
        ensures
            r == usable_url(self.url@),
    {
        str_starts_with(self.url.as_str(), "https://") || str_starts_with(
            self.url.as_str(),
            "http://",
        )
    }
}

/// The last (up to) four characters of `token`.
pub open spec fn token_tail(token: Seq<char>) -> Seq<char> {
    if token.len() > 4 {
        token.subrange(token.len() - 4, token.len() as int)
    } else {
        token
    }
}

/// A token as displayed: its last four characters behind an ellipsis.
pub open spec fn masked(token: Seq<char>) -> Seq<char> {
    "…"@ + token_tail(token)
}

/// Masks a stored HEC token for display, e.g. `…abcd`.
pub fn mask_token(token: &str) -> (r: String)
    ensures
        r@ == masked(token@),
{
    let n = token.unicode_len();
    let from = if n > 4 {
        n - 4
    } else {
        0
    };
    let mut r = String::from_str("…");
    r.append(token.substring_char(from, n));
    proof {
        if n <= 4 {
            assert(token@.subrange(0, n as int) =~= token@);
        }
    }
    r
}

/// The string at `export.hec.token` of a dashboard document, when the
/// document parses as JSON and that field is a string.
pub uninterp spec fn json_hec_token(document: Seq<u8>) -> Option<Seq<char>>;

/// The document re-serialized with `export.hec.token` set to `token`.
pub uninterp spec fn json_with_hec_token(document: Seq<u8>, token: Seq<char>) -> Option<Seq<u8>>;

/// Calls `serde_json::from_slice::<serde_json::Value>` on the document, then
/// `Value::get` for `export`, `hec` and `token`, and `Value::as_str`.
/// Trusted to return the field named by `json_hec_token`.
#[verifier::external_body]
fn hec_token_in(document: &[u8]) -> (r: Option<String>)
    ensures
        opt_view(r) == json_hec_token(document@),
{
    let value: serde_json::Value = serde_json::from_slice(document).ok()?;
    Some(value.get("export")?.get("hec")?.get("token")?.as_str()?.to_string())
}

/// Calls `serde_json::from_slice::<serde_json::Value>` on the document,
/// assigns `token` at `export.hec.token` through `Value`'s `IndexMut`, and
/// serializes with `serde_json::to_vec`. Trusted to return the bytes named
/// by `json_with_hec_token`, which read back with that token in place. It
/// always returns them: the parse succeeds where `json_hec_token` found the
/// field, and writing a `Value` (string keys only) into a `Vec` cannot fail.
/// Called only where the field exists, as `IndexMut` panics on a path
/// through a value that is not an object.
#[verifier::external_body]
fn with_hec_token(document: &[u8], token: &str) -> (r: Option<Vec<u8>>)
    requires
        json_hec_token(document@) is Some,
    ensures
        r is Some,
        opt_bytes(r) == json_with_hec_token(document@, token@),
        json_hec_token(r->0@) == Some(token@),
{
    let mut value: serde_json::Value = serde_json::from_slice(document).ok()?;
    value["export"]["hec"]["token"] = serde_json::Value::String(token.to_string());
    serde_json::to_vec(&value).ok()
}

/// The view of optional bytes.
pub open spec fn opt_bytes(o: Option<Vec<u8>>) -> Option<Seq<u8>> {
    match o {
        Some(b) => Some(b@),
        None => None,
    }
}

/// Re-serializes the document with `export.hec.token` masked, whenever it
/// carries a non-empty token. `None` when the document is not parseable JSON
/// or carries no non-empty token — the stored bytes are then served
/// untouched.
pub fn mask_token_in_document(document: &[u8]) -> (r: Option<Vec<u8>>)
    ensures
        match json_hec_token(document@) {
            Some(t) => if t.len() > 0 {
                r is Some && opt_bytes(r) == json_with_hec_token(document@, masked(t))
            } else {
                r is None
            },
            None => r is None,
        },
        r matches Some(b) ==> json_hec_token(b@) == Some(masked(json_hec_token(document@)->0)),
{
    let token = match hec_token_in(document) {
        Some(t) => t,
        None => {
            return None;
        },
    };
    if token.unicode_len() == 0 {
        return None;
    }
    let m = mask_token(token.as_str());
    with_hec_token(document, m.as_str())
}

/// Fills a document's empty `export.hec.token` (the client's "keep the
/// stored token" encoding) with the stored token. `None` when nothing needs
/// merging — no stored token, no section, or a fresh token — and the
/// incoming bytes are then stored unchanged.
pub fn retain_token_in_document(new_document: &[u8], stored_token: &str) -> (r: Option<Vec<u8>>)
    ensures
        stored_token@.len() == 0 ==> r is None,
        stored_token@.len() > 0 ==> match json_hec_token(new_document@) {
            Some(t) => if t.len() == 0 {
                r is Some && opt_bytes(r) == json_with_hec_token(new_document@, stored_token@)
            } else {
                r is None
            },
            None => r is None,
        },
        r matches Some(b) ==> json_hec_token(b@) == Some(stored_token@),
{
    if stored_token.unicode_len() == 0 {
        return None;
    }
    let token = match hec_token_in(new_document) {
        Some(t) => t,
        None => {
            return None;
        },
    };
    if token.unicode_len() != 0 {
        return None;
    }
    with_hec_token(new_document, stored_token)
}

/// A masked token reveals at most its last four characters: the ellipsis,
/// then a suffix of the token no longer than four.
pub proof fn law_mask_reveals_at_most_four(token: Seq<char>)
    ensures
        masked(token).len() == 1 + (if token.len() > 4 {
            4
        } else {
            token.len() as int
        }),
        masked(token)[0] == '…',
        masked(token).subrange(1, masked(token).len() as int) == token.subrange(
            token.len() - token_tail(token).len(),
            token.len() as int,
        ),
{
    reveal_strlit("…");
    assert(masked(token).subrange(1, masked(token).len() as int) =~= token_tail(token));
    if token.len() <= 4 {
        assert(token.subrange(0, token.len() as int) =~= token);
    }
}

/// Body of the connectivity test: overrides for an unsaved edit session.
#[derive(Debug, Default)]
pub struct TestOverride {
    pub url: Option<String>,
    pub token: Option<String>,
    pub index: Option<String>,
}

/// Nothing but whitespace.
pub open spec fn blank(s: Seq<char>) -> bool {
    trim(s).len() == 0
}

/// A token the dialog really sent: non-empty and not the masked placeholder.
pub open spec fn fresh_token(t: Seq<char>) -> bool {
    t.len() > 0 && t[0] != '…'
}

/// The URL a test uses: a non-blank override, else the stored one.
pub open spec fn test_url(ov: TestOverride, stored: Option<&HecTarget>) -> Option<Seq<char>> {
    if ov.url is Some && !blank(ov.url->0@) {
        Some(ov.url->0@)
    } else {
        match stored {
            Some(t) => Some(t.url@),
            None => None,
        }
    }
}

/// The token a test uses: a fresh override, else the stored one, else empty.
pub open spec fn test_token(ov: TestOverride, stored: Option<&HecTarget>) -> Seq<char> {
    if ov.token is Some && fresh_token(ov.token->0@) {
        ov.token->0@
    } else {
        match stored {
            Some(t) => t.token@,
            None => Seq::empty(),
        }
    }
}

/// The index a test uses: a non-blank override, else the stored one, else
/// `metrics`.
pub open spec fn test_index(ov: TestOverride, stored: Option<&HecTarget>) -> Seq<char> {
    if ov.index is Some && !blank(ov.index->0@) {
        ov.index->0@
    } else {
        match stored {
            Some(t) => t.index@,
            None => "metrics"@,
        }
    }
}

/// The events index a test uses: always the stored one, else `main`.
pub open spec fn test_events_index(stored: Option<&HecTarget>) -> Seq<char> {
    match stored {
        Some(t) => t.events_index@,
        None => "main"@,
    }
}

fn is_blank(s: &str) -> (r: bool)
    ensures
        r == blank(s@),
{
    let c = to_chars(s);
    trimmed(c.as_slice()).len() == 0
}

fn is_fresh_token(t: &str) -> (r: bool)
    ensures
        r == fresh_token(t@),
{
    let c = to_chars(t);
    c.len() > 0 && c[0] != '…'
}

/// Merges a test override over the stored target. `None` when there is
/// neither an override URL nor a stored one.
pub fn resolve_test_target(override_: TestOverride, stored: Option<&HecTarget>) -> (r: Option<
    HecTarget,
>)
    ensures
        match r {
            None => test_url(override_, stored) is None,
            Some(t) => {
                &&& test_url(override_, stored) == Some(t.url@)
                &&& t.token@ == test_token(override_, stored)
                &&& t.index@ == test_index(override_, stored)
                &&& t.events_index@ == test_events_index(stored)
            },
        },
{
    let ghost ov = override_;
    let TestOverride { url, token, index } = override_;
    let url: String = match url {
        Some(u) if !is_blank(u.as_str()) => u,
        _ => match stored {
            Some(t) => t.url.clone(),
            None => {
                return None;
            },
        },
    };
    let token: String = match token {
        Some(t) if is_fresh_token(t.as_str()) => t,
        _ => match stored {
            Some(t) => t.token.clone(),
            None => String::new(),
        },
    };
    let index: String = match index {
        Some(i) if !is_blank(i.as_str()) => i,
        _ => match stored {
            Some(t) => t.index.clone(),
            None => default_index(),
        },
    };
    let events_index: String = match stored {
        Some(t) => t.events_index.clone(),
        None => default_events_index(),
    };
    Some(HecTarget { url, token, index, events_index })
}

// ---------------------------------------------------------------------------
// Export status
// ---------------------------------------------------------------------------

/// What the exporter is doing right now.
#[derive(Clone, Copy, Debug, PartialEq, Eq, Structural)]
pub enum ExportState {
    /// No `export.hec` section in the document.
    Disabled,
    /// Configured, but the host is idle and nothing is being sent.
    Idle,
    /// Configured, active, and sending (or retrying a backlog).
    Exporting,
    /// Endpoint unreachable; metrics are dropped, GPU events buffered.
    Down,
}

/// The exporter status published to the settings dialog.
#[derive(Clone, Debug)]
pub struct ExportStatus {
    pub state: ExportState,
    /// The last HEC contact (ingest or probe) got an HTTP response.
    pub reachable: bool,
    pub last_ok_ms: Option<u64>,
    /// Short machine-readable reason; never contains the token.
    pub last_error: Option<String>,
    /// Snapshots dropped by the idle gate, the down state, or overflow.
    pub dropped_count: u64,
}

impl ExportStatus {
    /// The status of an exporter that has nothing configured.
    pub fn disabled() -> (r: Self)
        ensures
            r.state == ExportState::Disabled,
            !r.reachable,
            r.last_ok_ms is None,
            r.last_error is None,
            r.dropped_count == 0,
    {
        ExportStatus {
            state: ExportState::Disabled,
            reachable: false,
            last_ok_ms: None,
            last_error: None,
            dropped_count: 0,
        }
    }
}

// ---------------------------------------------------------------------------
// Metric names
// ---------------------------------------------------------------------------

/// The name prefix of an engine's fields in the metrics event: the engine
/// type's serialized name, lower-cased, between `metric_name:engine.` and a dot.
pub open spec fn engine_metric_prefix(engine_type: EngineType) -> Seq<char> {
    match engine_type {
        EngineType::Vllm => "metric_name:engine.vllm."@,
        EngineType::LlamaCpp => "metric_name:engine.llamacpp."@,
    }
}

/// The name prefix of an engine's fields in the metrics event.
pub fn engine_type_key(engine_type: &EngineType) -> (r: String)
    ensures
        r@ == engine_metric_prefix(*engine_type),
{
    match engine_type {
        EngineType::Vllm => String::from_str("metric_name:engine.vllm."),
        EngineType::LlamaCpp => String::from_str("metric_name:engine.llamacpp."),
    }
}

// ---------------------------------------------------------------------------
// Idle gate
// ---------------------------------------------------------------------------

/// A request's start and end, in wall-clock milliseconds.
#[derive(Clone, Copy, Debug)]
pub struct RequestSpan {
    pub start_ms: u64,
    pub end_ms: u64,
}

/// The request counters of an engine's last `/metrics` scrape.
#[derive(Clone, Copy, Debug)]
pub struct RequestCounts {
    pub active_requests: Option<u64>,
    pub queued_requests: Option<u64>,
}

/// What the idle gate reads of one engine: its counters (`None` when the
/// scrape failed) and its recent requests.
#[derive(Clone, Debug)]
pub struct EngineLoad {
    pub metrics: Option<RequestCounts>,
    pub recent_requests: Vec<RequestSpan>,
}

/// What the idle gate reads of one metrics snapshot.
#[derive(Clone, Debug)]
pub struct LoadSnapshot {
    pub timestamp_ms: u64,
    pub engines: Vec<EngineLoad>,
}

/// The start of the idle window ending at `now`.
pub open spec fn idle_cutoff(now: u64) -> int {
    if now >= IDLE_WINDOW_MS {
        now - IDLE_WINDOW_MS
    } else {
        0
    }
}

/// A request started or ended at or after `cutoff`.
pub open spec fn recent(r: RequestSpan, cutoff: int) -> bool {
    r.start_ms >= cutoff || r.end_ms >= cutoff
}

/// One engine keeps the host active: its counters are unknown or non-zero,
/// or one of its requests is recent.
pub open spec fn engine_active(e: EngineLoad, cutoff: int) -> bool {
    match e.metrics {
        None => true,
        Some(m) => {
            ||| m.active_requests != Some(0u64)
            ||| m.queued_requests != Some(0u64)
            ||| exists|i: int| 0 <= i < e.recent_requests@.len() && recent(
                #[trigger] e.recent_requests@[i],
                cutoff,
            )
        },
    }
}

/// Inference is active on the host: some engine is active.
pub open spec fn host_active(s: LoadSnapshot) -> bool {
    exists|i: int|
        0 <= i < s.engines@.len() && engine_active(
            #[trigger] s.engines@[i],
            idle_cutoff(s.timestamp_ms),
        )
}

fn engine_is_active(e: &EngineLoad, cutoff: u64) -> (r: bool)
    ensures
        r == engine_active(*e, cutoff as int),
{
    match e.metrics {
        None => true,
        Some(m) => {
            let known_zero = match (m.active_requests, m.queued_requests) {
                (Some(a), Some(q)) => a == 0 && q == 0,
                _ => false,
            };
            if !known_zero {
                return true;
            }
            let mut i: usize = 0;
            while i < e.recent_requests.len()
                invariant
                    i <= e.recent_requests@.len(),
                    forall|j: int| 0 <= j < i ==> !recent(#[trigger] e.recent_requests@[j], cutoff as int),
                decreases e.recent_requests.len() - i,
            {
                let r = e.recent_requests[i];
                if r.start_ms >= cutoff || r.end_ms >= cutoff {
                    assert(recent(e.recent_requests@[i as int], cutoff as int));
                    return true;
                }
                i = i + 1;
            }
            false
        },
    }
}

/// Whether the host is doing inference work: an engine reports running or
/// queued requests, or a request started or ended within the idle window.
/// An engine whose counters are unknown counts as active (fail-open); a host
/// with no engines is idle.
pub fn is_active(snapshot: &LoadSnapshot) -> (r: bool)
    ensures
        r == host_active(*snapshot),
{
    let cutoff: u64 = snapshot.timestamp_ms.saturating_sub(IDLE_WINDOW_MS);
    let mut i: usize = 0;
    while i < snapshot.engines.len()
        invariant
            i <= snapshot.engines@.len(),
            cutoff as int == idle_cutoff(snapshot.timestamp_ms),
            forall|j: int|
                0 <= j < i ==> !engine_active(#[trigger] snapshot.engines@[j], cutoff as int),
        decreases snapshot.engines.len() - i,
    {
        if engine_is_active(&snapshot.engines[i], cutoff) {
            return true;
        }
        i = i + 1;
    }
    false
}

/// The idle gate fails open and invents no activity: an engine whose counts
/// are unknown, or that reports running or queued requests, keeps the host
/// active; a host without engines is idle.
pub proof fn law_idle_gate(s: LoadSnapshot, i: int)
    ensures
        s.engines@.len() == 0 ==> !host_active(s),
        (0 <= i < s.engines@.len() && s.engines@[i].metrics is None) ==> host_active(s),
        (0 <= i < s.engines@.len() && s.engines@[i].metrics is Some && (
        s.engines@[i].metrics->0.active_requests != Some(0u64)
            || s.engines@[i].metrics->0.queued_requests != Some(0u64))) ==> host_active(s),
{
    if 0 <= i < s.engines@.len() {
        let e = s.engines@[i];
        if e.metrics is None || e.metrics->0.active_requests != Some(0u64)
            || e.metrics->0.queued_requests != Some(0u64) {
            assert(engine_active(e, idle_cutoff(s.timestamp_ms)));
        }
    }
}

/// The idle window looks at both ends of a request: a request that started
/// or ended within the last minute keeps the host active, whatever the
/// engine's counters say; and a host whose engines all report zero running
/// and zero queued requests, with every request started and ended before
/// the window, is idle.
pub proof fn law_idle_window(s: LoadSnapshot, i: int, j: int)
    ensures
        (0 <= i < s.engines@.len() && 0 <= j < s.engines@[i].recent_requests@.len() && (
        s.engines@[i].recent_requests@[j].end_ms + IDLE_WINDOW_MS >= s.timestamp_ms
            || s.engines@[i].recent_requests@[j].start_ms + IDLE_WINDOW_MS >= s.timestamp_ms))
            ==> host_active(s),
        (forall|k: int|
            0 <= k < s.engines@.len() ==> {
                &&& (#[trigger] s.engines@[k]).metrics == Some(
                    RequestCounts { active_requests: Some(0u64), queued_requests: Some(0u64) },
                )
                &&& forall|l: int|
                    0 <= l < s.engines@[k].recent_requests@.len() ==> (
                    #[trigger] s.engines@[k].recent_requests@[l]).start_ms + IDLE_WINDOW_MS
                        < s.timestamp_ms && s.engines@[k].recent_requests@[l].end_ms
                        + IDLE_WINDOW_MS < s.timestamp_ms
            }) ==> !host_active(s),
{
    let cutoff = idle_cutoff(s.timestamp_ms);
    if 0 <= i < s.engines@.len() && 0 <= j < s.engines@[i].recent_requests@.len() {
        let e = s.engines@[i];
        let r = e.recent_requests@[j];
        if r.end_ms + IDLE_WINDOW_MS >= s.timestamp_ms || r.start_ms + IDLE_WINDOW_MS
            >= s.timestamp_ms {
            assert(recent(r, cutoff));
            if e.metrics is Some {
                assert(0 <= j < e.recent_requests@.len() && recent(e.recent_requests@[j], cutoff));
            }
            assert(engine_active(e, cutoff));
        }
    }
    if forall|k: int|
        0 <= k < s.engines@.len() ==> {
            &&& (#[trigger] s.engines@[k]).metrics == Some(
                RequestCounts { active_requests: Some(0u64), queued_requests: Some(0u64) },
            )
            &&& forall|l: int|
                0 <= l < s.engines@[k].recent_requests@.len() ==> (
                #[trigger] s.engines@[k].recent_requests@[l]).start_ms + IDLE_WINDOW_MS
                    < s.timestamp_ms && s.engines@[k].recent_requests@[l].end_ms + IDLE_WINDOW_MS
                    < s.timestamp_ms
        } {
        assert forall|k: int| 0 <= k < s.engines@.len() implies !engine_active(
            #[trigger] s.engines@[k],
            cutoff,
        ) by {
            let e = s.engines@[k];
            assert forall|l: int| 0 <= l < e.recent_requests@.len() implies !recent(
                #[trigger] e.recent_requests@[l],
                cutoff,
            ) by {
                assert(s.engines@[k].recent_requests@[l] == e.recent_requests@[l]);
            }
        }
    }
}

// ---------------------------------------------------------------------------
// Reading a HEC answer
// ---------------------------------------------------------------------------

/// What a HEC POST answered with.
#[derive(Clone, Debug)]
pub enum SendOutcome {
    /// Ingested (or nothing was sent).
    Accepted,
    /// 429 / 5xx: alive but not taking data right now.
    Retry,
    /// 401/403/400: the network is up, the configuration is not.
    Misconfigured(String),
    /// DNS failure, refused connection, timeout.
    Unreachable,
}

impl PartialEq for SendOutcome {
    fn eq(&self, other: &Self) -> (r: bool) {
        match (self, other) {
            (SendOutcome::Accepted, SendOutcome::Accepted) => true,
            (SendOutcome::Retry, SendOutcome::Retry) => true,
            (SendOutcome::Misconfigured(a), SendOutcome::Misconfigured(b)) => str_eq(a.as_str(), b.as_str()),
            (SendOutcome::Unreachable, SendOutcome::Unreachable) => true,
            _ => false,
        }
    }
}

impl vstd::std_specs::cmp::PartialEqSpecImpl for SendOutcome {
    open spec fn obeys_eq_spec() -> bool {
        true
    }

    open spec fn eq_spec(&self, other: &Self) -> bool {
        match (*self, *other) {
            (SendOutcome::Accepted, SendOutcome::Accepted) => true,
            (SendOutcome::Retry, SendOutcome::Retry) => true,
            (SendOutcome::Misconfigured(a), SendOutcome::Misconfigured(b)) => a@ == b@,
            (SendOutcome::Unreachable, SendOutcome::Unreachable) => true,
            _ => false,
        }
    }
}

/// The `code` field of a HEC error body (`{"text": …, "code": N}`) read as a
/// JSON integer; `None` when the body is not JSON or has no integer `code`.
pub uninterp spec fn json_code_field(body: Seq<char>) -> Option<i64>;

/// Calls `serde_json::from_str::<serde_json::Value>` on the body, then
/// `Value::get("code")` and `Value::as_i64`. Trusted to return what the
/// named function `json_code_field` gives for the body; nothing more is
/// claimed about how JSON is read.
#[verifier::external_body]
fn hec_error_code(body: &str) -> (r: Option<i64>)
    ensures
        r == json_code_field(body@),
{
    serde_json::from_str::<serde_json::Value>(body).ok().and_then(
        |v| v.get("code").and_then(serde_json::Value::as_i64),
    )
}

/// The short reason recorded for a rejection with `status`, given the HEC
/// error code of its body.
pub open spec fn rejection_reason(status: u16, code: Option<i64>) -> Seq<char> {
    if status == 403 {
        "hec-403"@
    } else if status == 400 {
        if code == Some(7i64) {
            "hec-400-index-denied"@
        } else {
            "hec-400"@
        }
    } else if status == 401 {
        "hec-401"@
    } else {
        "hec-other"@
    }
}

/// The short reason for a rejection, from its status and HEC error code
/// (code 7: the token's index allowlist excludes the index).
pub fn reason_for(status: u16, code: Option<i64>) -> (r: String)
    ensures
        r@ == rejection_reason(status, code),
{
    if status == 403 {
        String::from_str("hec-403")
    } else if status == 400 {
        if code == Some(7i64) {
            String::from_str("hec-400-index-denied")
        } else {
            String::from_str("hec-400")
        }
    } else if status == 401 {
        String::from_str("hec-401")
    } else {
        String::from_str("hec-other")
    }
}

/// The error code a rejection's body is read for: only a 400 carries one
/// that matters.
pub open spec fn relevant_code(status: u16, body: Seq<char>) -> Option<i64> {
    if status == 400 {
        json_code_field(body)
    } else {
        None
    }
}

/// The short reason for a rejection with `status` and response `body`.
pub fn misconfigured_reason(status: u16, body: &str) -> (r: String)
    ensures
        r@ == rejection_reason(status, relevant_code(status, body@)),
{
    let code = if status == 400 {
        hec_error_code(body)
    } else {
        None
    };
    reason_for(status, code)
}

/// What an HTTP answer with `status` means for a batch.
pub open spec fn send_outcome_kind(status: u16) -> int {
    if 200 <= status < 300 {
        0
    } else if status == 429 || status >= 500 {
        1
    } else {
        2
    }
}

/// Reads the answer to a HEC POST: 2xx ingested, 429/5xx retry later,
/// anything else a configuration problem with its reason.
pub fn classify_response(status: u16, body: &str) -> (r: SendOutcome)
    ensures
        200 <= status < 300 ==> r is Accepted,
        (status == 429 || status >= 500) ==> r is Retry,
        !(200 <= status < 300) && !(status == 429 || status >= 500) ==> (r matches SendOutcome::Misconfigured(reason) && reason@ == rejection_reason(status, relevant_code(status, body@))),
{
    if 200 <= status && status < 300 {
        SendOutcome::Accepted
    } else if status == 429 || status >= 500 {
        SendOutcome::Retry
    } else {
        SendOutcome::Misconfigured(misconfigured_reason(status, body))
    }
}

/// What the settings dialog's test-connection probe found.
#[derive(Clone, Copy, Debug, PartialEq, Eq, Structural)]
pub enum TestOutcome {
    /// 2xx: the test event was ingested.
    Accepted,
    /// 403: the token is invalid or disabled.
    InvalidToken,
    /// 400 with HEC code 7: the index is not allowed for the token.
    IndexDenied,
    /// 429: the HEC queue is full.
    QueueFull,
    /// 401, 400 without code 7, or any other 4xx: a configuration problem
    /// without dedicated copy.
    Misconfigured,
    /// 5xx: the HEC server itself is failing.
    ServerError,
    /// DNS failure, refused connection, or timeout.
    Unreachable,
}

/// The test outcome for an HTTP answer with `status` and HEC error `code`.
pub open spec fn test_outcome_spec(status: u16, code: Option<i64>) -> TestOutcome {
    if 200 <= status < 300 {
        TestOutcome::Accepted
    } else if status == 429 {
        TestOutcome::QueueFull
    } else if status == 403 {
        TestOutcome::InvalidToken
    } else if status >= 500 {
        TestOutcome::ServerError
    } else if status == 400 && code == Some(7i64) {
        TestOutcome::IndexDenied
    } else {
        TestOutcome::Misconfigured
    }
}

/// The test outcome for an HTTP answer, given its HEC error code.
pub fn test_outcome_for(status: u16, code: Option<i64>) -> (r: TestOutcome)
    ensures
        r == test_outcome_spec(status, code),
{
    if 200 <= status && status < 300 {
        TestOutcome::Accepted
    } else if status == 429 {
        TestOutcome::QueueFull
    } else if status == 403 {
        TestOutcome::InvalidToken
    } else if status >= 500 {
        TestOutcome::ServerError
    } else if status == 400 && code == Some(7i64) {
        TestOutcome::IndexDenied
    } else {
        TestOutcome::Misconfigured
    }
}

/// Reads the answer to the connectivity test POST.
pub fn classify_test(status: u16, body: &str) -> (r: TestOutcome)
    ensures
        r == test_outcome_spec(status, relevant_code(status, body@)),
{
    let code = if status == 400 {
        hec_error_code(body)
    } else {
        None
    };
    test_outcome_for(status, code)
}


/// The connection test and the exporter read an answer alike: the test
/// reports success exactly for the answers the exporter counts as ingested,
/// a full queue or a failing server exactly for those it retries, and a
/// configuration problem otherwise; an invalid token is exactly a 403, and
/// a denied index exactly a 400 with HEC code 7, matching the reasons the
/// exporter records for them.
pub proof fn law_test_agrees_with_export(status: u16, code: Option<i64>)
    ensures
        (test_outcome_spec(status, code) == TestOutcome::Accepted) == (200 <= status < 300),
        (test_outcome_spec(status, code) == TestOutcome::QueueFull || test_outcome_spec(status, code)
            == TestOutcome::ServerError) == (status == 429 || status >= 500),
        (test_outcome_spec(status, code) == TestOutcome::InvalidToken) == (status == 403),
        (test_outcome_spec(status, code) == TestOutcome::IndexDenied) == (status == 400 && code
            == Some(7i64)),
        status == 403 ==> rejection_reason(status, code) == "hec-403"@,
        (status == 400 && code == Some(7i64)) ==> rejection_reason(status, code)
            == "hec-400-index-denied"@,
        test_outcome_spec(status, code) != TestOutcome::Unreachable,
{
}

// ---------------------------------------------------------------------------
// The exporter state machine
// ---------------------------------------------------------------------------

/// The last `cap` elements of `s`, or all of `s` when it is no longer.
pub open spec fn keep_last<E>(s: Seq<E>, cap: int) -> Seq<E> {
    if s.len() > cap {
        s.subrange(s.len() - cap, s.len() as int)
    } else {
        s
    }
}

/// How many of `len` elements do not fit under `cap`.
pub open spec fn overflow(len: int, cap: int) -> int {
    if len > cap {
        len - cap
    } else {
        0
    }
}

/// `a + b` for `b >= 0`, saturating at `u64::MAX`.
pub open spec fn sat_add(a: u64, b: int) -> u64 {
    if a + b >= u64::MAX {
        u64::MAX
    } else {
        (a + b) as u64
    }
}

/// The exporter as the status surface and the queues see it. Times are in
/// milliseconds: `last_ok_ms` on the wall clock, `next_probe_ms` on the
/// monotonic clock the caller drives the loop with.
pub struct ExporterModel<E> {
    pub state: ExportState,
    pub reachable: bool,
    pub last_ok_ms: Option<u64>,
    pub last_error: Option<Seq<char>>,
    pub dropped: u64,
    pub next_probe_ms: u64,
    /// Metric events awaiting a retry, oldest first.
    pub backlog: Seq<E>,
    /// GPU events awaiting a send, oldest first.
    pub events: Seq<E>,
}

impl<E> ExporterModel<E> {
    /// Both queues are within their caps, and a `Down` exporter holds no
    /// metric backlog and does not claim the endpoint is reachable.
    pub open spec fn wf(self) -> bool {
        &&& self.backlog.len() <= METRIC_BACKLOG_CAP
        &&& self.events.len() <= EVENT_BACKLOG_CAP
        &&& self.state == ExportState::Down ==> self.backlog.len() == 0 && !self.reachable
    }

    /// No usable target: disabled, with no error to report.
    pub open spec fn disabled(self) -> Self {
        ExporterModel { state: ExportState::Disabled, last_error: None, ..self }
    }

    /// Entering `Down` at monotonic time `mono_ms`: the backlog is dropped
    /// and the next probe is one interval away.
    pub open spec fn down(self, mono_ms: u64, interval_ms: u64) -> Self {
        ExporterModel {
            backlog: Seq::empty(),
            state: ExportState::Down,
            reachable: false,
            last_error: Some("connection-failed"@),
            next_probe_ms: sat_add(mono_ms, interval_ms as int),
            ..self
        }
    }

    /// `n` more snapshots dropped.
    pub open spec fn count_dropped(self, n: int) -> Self {
        ExporterModel { dropped: sat_add(self.dropped, n), ..self }
    }

    /// `batch` queued behind the backlog; what overflows the cap is dropped,
    /// oldest first, and counted.
    pub open spec fn with_backlog(self, batch: Seq<E>) -> Self {
        ExporterModel {
            backlog: keep_last(self.backlog + batch, METRIC_BACKLOG_CAP as int),
            dropped: sat_add(
                self.dropped,
                overflow((self.backlog.len() + batch.len()) as int, METRIC_BACKLOG_CAP as int),
            ),
            ..self
        }
    }

    /// `more` GPU events buffered; what overflows the cap is dropped, oldest
    /// first.
    pub open spec fn with_events(self, more: Seq<E>) -> Self {
        ExporterModel { events: keep_last(self.events + more, EVENT_BACKLOG_CAP as int), ..self }
    }

    /// Whether a metric snapshot is sent: only an active host's, and never
    /// while `Down`.
    pub open spec fn admits(self, active: bool) -> bool {
        active && self.state != ExportState::Down
    }

    /// After a metric snapshot was offered for sending. An idle snapshot is
    /// dropped (and an exporter that is not `Down` becomes `Idle`); an active
    /// one is dropped while `Down`.
    pub open spec fn after_offer(self, active: bool) -> Self {
        if !active {
            if self.state != ExportState::Down {
                ExporterModel { state: ExportState::Idle, ..self }.count_dropped(1)
            } else {
                self.count_dropped(1)
            }
        } else if self.state == ExportState::Down {
            self.count_dropped(1)
        } else {
            self
        }
    }

    /// After the backlog was taken out to be sent.
    pub open spec fn drained(self) -> Self {
        ExporterModel { backlog: Seq::empty(), ..self }
    }

    /// After the GPU events were taken out to be sent.
    pub open spec fn events_drained(self) -> Self {
        ExporterModel { events: Seq::empty(), ..self }
    }

    /// After a metric batch was POSTed with `outcome`.
    pub open spec fn after_send(
        self,
        outcome: SendOutcome,
        batch: Seq<E>,
        wall_ms: u64,
        mono_ms: u64,
        interval_ms: u64,
    ) -> Self {
        match outcome {
            SendOutcome::Accepted => ExporterModel {
                state: ExportState::Exporting,
                reachable: true,
                last_ok_ms: Some(wall_ms),
                last_error: None,
                ..self
            },
            SendOutcome::Retry => ExporterModel {
                state: ExportState::Exporting,
                reachable: true,
                last_error: Some("hec-429-or-5xx"@),
                ..self.with_backlog(batch)
            },
            SendOutcome::Misconfigured(reason) => ExporterModel {
                state: ExportState::Exporting,
                reachable: true,
                last_error: Some(reason@),
                ..self.count_dropped(batch.len() as int)
            },
            SendOutcome::Unreachable => self.down(mono_ms, interval_ms).count_dropped(
                batch.len() as int,
            ),
        }
    }

    /// After the buffered GPU events were POSTed with `outcome`.
    pub open spec fn after_flush(
        self,
        outcome: SendOutcome,
        flushed: Seq<E>,
        wall_ms: u64,
        mono_ms: u64,
        interval_ms: u64,
    ) -> Self {
        match outcome {
            SendOutcome::Accepted => ExporterModel { last_ok_ms: Some(wall_ms), ..self },
            SendOutcome::Retry => self.with_events(flushed),
            SendOutcome::Misconfigured(reason) => ExporterModel {
                last_error: Some(reason@),
                ..self
            },
            SendOutcome::Unreachable => self.down(mono_ms, interval_ms),
        }
    }

    /// The state after an answered probe: a `Down` exporter recovers, any
    /// other keeps its state.
    pub open spec fn answered_state(self) -> ExportState {
        if self.state == ExportState::Down {
            ExportState::Exporting
        } else {
            self.state
        }
    }

    /// After the liveness probe; `outcome` is `None` when no usable target
    /// is configured. The next probe is one interval away either way.
    pub open spec fn after_probe(
        self,
        outcome: Option<SendOutcome>,
        wall_ms: u64,
        mono_ms: u64,
        interval_ms: u64,
    ) -> Self {
        let s = match outcome {
            None => self.disabled(),
            Some(SendOutcome::Unreachable) => if self.state != ExportState::Down {
                self.down(mono_ms, interval_ms)
            } else {
                self
            },
            Some(SendOutcome::Accepted) => ExporterModel {
                state: self.answered_state(),
                reachable: true,
                last_error: None,
                last_ok_ms: Some(wall_ms),
                ..self
            },
            Some(SendOutcome::Retry) => ExporterModel {
                state: self.answered_state(),
                reachable: true,
                last_error: Some("hec-429-or-5xx"@),
                ..self
            },
            Some(SendOutcome::Misconfigured(reason)) => ExporterModel {
                state: self.answered_state(),
                reachable: true,
                last_error: Some(reason@),
                ..self
            },
        };
        ExporterModel { next_probe_ms: sat_add(mono_ms, interval_ms as int), ..s }
    }
}

proof fn lemma_keep_last_push<E>(s: Seq<E>, x: E, cap: int)
    requires
        1 <= cap,
        s.len() <= cap,
    ensures
        keep_last(s + seq![x], cap) == (if s.len() == cap {
            s.subrange(1, s.len() as int).push(x)
        } else {
            s.push(x)
        }),
{
    if s.len() == cap {
        assert(keep_last(s + seq![x], cap) =~= s.subrange(1, s.len() as int).push(x));
    } else {
        assert(s + seq![x] =~= s.push(x));
    }
}

proof fn lemma_keep_last_step<E>(a: Seq<E>, b: Seq<E>, i: int, cap: int)
    requires
        1 <= cap,
        0 <= i < b.len(),
    ensures
        keep_last(a + b.take(i + 1), cap) == keep_last(keep_last(a + b.take(i), cap) + seq![b[i]], cap),
{
    let t = a + b.take(i);
    assert(a + b.take(i + 1) =~= t + seq![b[i]]);
    let k = keep_last(t, cap);
    if t.len() > cap {
        assert(keep_last(t + seq![b[i]], cap) =~= keep_last(k + seq![b[i]], cap));
    }
}

/// Moves every element of `q` into a `Vec`, in order.
fn drain_queue<E>(q: &mut VecDeque<E>) -> (out: Vec<E>)
    ensures
        out@ == old(q)@,
        final(q)@ == Seq::<E>::empty(),
{
    let mut out: Vec<E> = Vec::new();
    while q.len() > 0
        invariant
            out@ + q@ == old(q)@,
        decreases q@.len(),
    {
        let ghost before = q@;
        match q.pop_front() {
            Some(e) => {
                out.push(e);
                assert(out@ + q@ =~= old(q)@) by {
                    assert(before =~= seq![e] + q@);
                }
            },
            None => {},
        }
    }
    assert(out@ + q@ =~= out@);
    out
}

/// The HEC exporter: where the state machine stands, what the status
/// surface publishes, and what waits to be sent. `E` is the event type the
/// caller sends (a JSON value).
pub struct Exporter<E> {
    state: ExportState,
    reachable: bool,
    last_ok_ms: Option<u64>,
    last_error: Option<String>,
    dropped: u64,
    next_probe_ms: u64,
    backlog: VecDeque<E>,
    events: VecDeque<E>,
}

impl<E> View for Exporter<E> {
    type V = ExporterModel<E>;

    closed spec fn view(&self) -> ExporterModel<E> {
        ExporterModel {
            state: self.state,
            reachable: self.reachable,
            last_ok_ms: self.last_ok_ms,
            last_error: opt_view(self.last_error),
            dropped: self.dropped,
            next_probe_ms: self.next_probe_ms,
            backlog: self.backlog@,
            events: self.events@,
        }
    }
}

fn saturating_add_u64(a: u64, b: u64) -> (r: u64)
    ensures
        r == sat_add(a, b as int),
{
    a.saturating_add(b)
}

fn count_u64(n: usize) -> (r: u64)
    ensures
        r as int == (if n as int >= u64::MAX { u64::MAX as int } else { n as int }),
{
    if n as u128 >= u64::MAX as u128 {
        u64::MAX
    } else {
        n as u64
    }
}

impl<E> Exporter<E> {
    /// A fresh exporter at monotonic time `mono_ms`: disabled, nothing
    /// queued, first probe one interval away.
    pub fn new(mono_ms: u64, interval_ms: u64) -> (r: Self)
        ensures
            r@.wf(),
            r@.state == ExportState::Disabled,
            !r@.reachable,
            r@.last_ok_ms is None,
            r@.last_error is None,
            r@.dropped == 0,
            r@.next_probe_ms == sat_add(mono_ms, interval_ms as int),
            r@.backlog.len() == 0,
            r@.events.len() == 0,
    {
        Exporter {
            state: ExportState::Disabled,
            reachable: false,
            last_ok_ms: None,
            last_error: None,
            dropped: 0,
            next_probe_ms: saturating_add_u64(mono_ms, interval_ms),
            backlog: VecDeque::new(),
            events: VecDeque::new(),
        }
    }

    /// The status to publish.
    pub fn status(&self) -> (r: ExportStatus)
        ensures
            r.state == self@.state,
            r.reachable == self@.reachable,
            r.last_ok_ms == self@.last_ok_ms,
            opt_view(r.last_error) == self@.last_error,
            r.dropped_count == self@.dropped,
    {
        ExportStatus {
            state: self.state,
            reachable: self.reachable,
            last_ok_ms: self.last_ok_ms,
            last_error: match &self.last_error {
                Some(e) => Some(e.clone()),
                None => None,
            },
            dropped_count: self.dropped,
        }
    }

    /// When the next liveness probe is due (monotonic milliseconds).
    pub fn next_probe_ms(&self) -> (r: u64)
        ensures
            r == self@.next_probe_ms,
    {
        self.next_probe_ms
    }

    /// No usable target: report disabled.
    pub fn disable(&mut self)
        requires
            old(self)@.wf(),
        ensures
            final(self)@ == old(self)@.disabled(),
            final(self)@.wf(),
    {
        self.state = ExportState::Disabled;
        self.last_error = None;
    }

    /// Buffers a GPU event. GPU events are never idle-after_offer and are kept
    /// while `Down`; past the cap the oldest is dropped.
    pub fn push_event(&mut self, event: E)
        requires
            old(self)@.wf(),
        ensures
            final(self)@ == old(self)@.with_events(seq![event]),
            final(self)@.wf(),
    {
        if self.events.len() >= EVENT_BACKLOG_CAP {
            let _ = self.events.pop_front();
        }
        self.events.push_back(event);
        proof {
            lemma_keep_last_push(old(self)@.events, event, EVENT_BACKLOG_CAP as int);
        }
    }

    fn enter_down(&mut self, mono_ms: u64, interval_ms: u64)
        ensures
            final(self)@ == old(self)@.down(mono_ms, interval_ms),
    {
        self.backlog.clear();
        self.state = ExportState::Down;
        self.reachable = false;
        self.last_error = Some(String::from_str("connection-failed"));
        self.next_probe_ms = saturating_add_u64(mono_ms, interval_ms);
    }

    fn add_dropped(&mut self, n: usize)
        ensures
            final(self)@ == old(self)@.count_dropped(n as int),
    {
        let k = count_u64(n);
        self.dropped = saturating_add_u64(self.dropped, k);
    }

    fn push_backlog(&mut self, batch: Vec<E>)
        requires
            old(self)@.backlog.len() <= METRIC_BACKLOG_CAP,
        ensures
            final(self)@ == old(self)@.with_backlog(batch@),
    {
        let ghost m0 = self@;
        let ghost b = batch@;
        let ghost cap = METRIC_BACKLOG_CAP as int;
        assert(b.take(0) =~= Seq::<E>::empty());
        assert(m0.backlog + b.take(0) =~= m0.backlog);
        for event in it: batch
            invariant
                it.seq() == b,
                cap == METRIC_BACKLOG_CAP as int,
                m0.backlog.len() <= cap,
                self@ == m0.with_backlog(b.take(it.index() as int)),
                self@.backlog.len() <= cap,
        {
            let ghost i = it.index() as int;
            let ghost before = self@;
            if self.backlog.len() >= METRIC_BACKLOG_CAP {
                let _ = self.backlog.pop_front();
                self.add_dropped(1);
            }
            self.backlog.push_back(event);
            proof {
                lemma_keep_last_push(before.backlog, event, cap);
                lemma_keep_last_step(m0.backlog, b, i, cap);
                let t = m0.backlog + b.take(i);
                assert(t.len() == m0.backlog.len() + i);
                assert((m0.backlog + b.take(i + 1)).len() == m0.backlog.len() + i + 1);
                assert(before.backlog == keep_last(t, cap));
            }
        }
        assert(b.take(b.len() as int) =~= b);
    }

    /// Offers a metric snapshot for sending; `true` when it is to be sent.
    pub fn admit_snapshot(&mut self, active: bool) -> (send: bool)
        requires
            old(self)@.wf(),
        ensures
            send == old(self)@.admits(active),
            final(self)@ == old(self)@.after_offer(active),
            final(self)@.wf(),
    {
        if !active {
            if self.state != ExportState::Down {
                self.state = ExportState::Idle;
            }
            self.add_dropped(1);
            return false;
        }
        if self.state == ExportState::Down {
            self.add_dropped(1);
            return false;
        }
        true
    }

    /// The batch to POST for a metric snapshot that was admitted: the
    /// backlog, oldest first, then `metric`.
    pub fn take_batch(&mut self, metric: E) -> (batch: Vec<E>)
        requires
            old(self)@.wf(),
        ensures
            batch@ == old(self)@.backlog.push(metric),
            final(self)@ == old(self)@.drained(),
            final(self)@.wf(),
    {
        let mut batch = drain_queue(&mut self.backlog);
        batch.push(metric);
        batch
    }

    /// Records how the POST of `batch` was answered. Returns `true` when the
    /// endpoint ingested it, so the buffered GPU events are to be flushed.
    pub fn record_send(
        &mut self,
        outcome: SendOutcome,
        batch: Vec<E>,
        wall_ms: u64,
        mono_ms: u64,
        interval_ms: u64,
    ) -> (flush: bool)
        requires
            old(self)@.wf(),
        ensures
            final(self)@ == old(self)@.after_send(outcome, batch@, wall_ms, mono_ms, interval_ms),
            final(self)@.wf(),
            flush == (outcome is Accepted),
    {
        let n = batch.len();
        match outcome {
            SendOutcome::Accepted => {
                self.state = ExportState::Exporting;
                self.reachable = true;
                self.last_ok_ms = Some(wall_ms);
                self.last_error = None;
                true
            },
            SendOutcome::Retry => {
                self.push_backlog(batch);
                self.state = ExportState::Exporting;
                self.reachable = true;
                self.last_error = Some(String::from_str("hec-429-or-5xx"));
                false
            },
            SendOutcome::Misconfigured(reason) => {
                self.add_dropped(n);
                self.state = ExportState::Exporting;
                self.reachable = true;
                self.last_error = Some(reason);
                false
            },
            SendOutcome::Unreachable => {
                self.enter_down(mono_ms, interval_ms);
                self.add_dropped(n);
                false
            },
        }
    }

    /// The buffered GPU events to POST, oldest first.
    pub fn take_events(&mut self) -> (events: Vec<E>)
        requires
            old(self)@.wf(),
        ensures
            events@ == old(self)@.events,
            final(self)@ == old(self)@.events_drained(),
            final(self)@.wf(),
    {
        drain_queue(&mut self.events)
    }

    /// Records how the POST of the buffered GPU events was answered. Only a
    /// retryable answer puts them back; a rejection will not succeed on the
    /// next attempt either, so they are dropped with the reason surfaced.
    pub fn record_flush(
        &mut self,
        outcome: SendOutcome,
        flushed: Vec<E>,
        wall_ms: u64,
        mono_ms: u64,
        interval_ms: u64,
    )
        requires
            old(self)@.wf(),
        ensures
            final(self)@ == old(self)@.after_flush(outcome, flushed@, wall_ms, mono_ms, interval_ms),
            final(self)@.wf(),
    {
        match outcome {
            SendOutcome::Accepted => {
                self.last_ok_ms = Some(wall_ms);
            },
            SendOutcome::Retry => {
                let ghost m0 = self@;
                let ghost b = flushed@;
                assert(b.take(0) =~= Seq::<E>::empty());
                assert(m0.events + b.take(0) =~= m0.events);
                for event in it: flushed
                    invariant
                        it.seq() == b,
                        m0.wf(),
                        self@ == m0.with_events(b.take(it.index() as int)),
                        self@.wf(),
                {
                    let ghost i = it.index() as int;
                    proof {
                        lemma_keep_last_step(m0.events, b, i, EVENT_BACKLOG_CAP as int);
                    }
                    self.push_event(event);
                }
                assert(b.take(b.len() as int) =~= b);
            },
            SendOutcome::Misconfigured(reason) => {
                self.last_error = Some(reason);
            },
            SendOutcome::Unreachable => {
                self.enter_down(mono_ms, interval_ms);
            },
        }
    }

    /// Records the liveness probe; `outcome` is `None` when no usable target
    /// is configured. Returns `true` when the probe was ingested, so the
    /// buffered GPU events are to be flushed.
    pub fn record_probe(
        &mut self,
        outcome: Option<SendOutcome>,
        wall_ms: u64,
        mono_ms: u64,
        interval_ms: u64,
    ) -> (flush: bool)
        requires
            old(self)@.wf(),
        ensures
            final(self)@ == old(self)@.after_probe(outcome, wall_ms, mono_ms, interval_ms),
            final(self)@.wf(),
            flush == (outcome matches Some(SendOutcome::Accepted)),
    {
        let mut flush = false;
        match outcome {
            None => {
                self.disable();
            },
            Some(SendOutcome::Unreachable) => {
                if self.state != ExportState::Down {
                    self.enter_down(mono_ms, interval_ms);
                }
            },
            Some(SendOutcome::Accepted) => {
                if self.state == ExportState::Down {
                    self.state = ExportState::Exporting;
                }
                self.reachable = true;
                self.last_error = None;
                self.last_ok_ms = Some(wall_ms);
                flush = true;
            },
            Some(SendOutcome::Retry) => {
                if self.state == ExportState::Down {
                    self.state = ExportState::Exporting;
                }
                self.reachable = true;
                self.last_error = Some(String::from_str("hec-429-or-5xx"));
            },
            Some(SendOutcome::Misconfigured(reason)) => {
                if self.state == ExportState::Down {
                    self.state = ExportState::Exporting;
                }
                self.reachable = true;
                self.last_error = Some(reason);
            },
        }
        self.next_probe_ms = saturating_add_u64(mono_ms, interval_ms);
        flush
    }
}

// ---------------------------------------------------------------------------
// Laws of the exporter
// ---------------------------------------------------------------------------

/// Every step of the exporter keeps its invariant: both queues stay within
/// their caps, and a `Down` exporter holds no metric backlog and does not
/// claim reachability.
pub proof fn law_steps_keep_invariant<E>(
    m: ExporterModel<E>,
    active: bool,
    event: E,
    outcome: SendOutcome,
    probe: Option<SendOutcome>,
    batch: Seq<E>,
    wall_ms: u64,
    mono_ms: u64,
    interval_ms: u64,
)
    requires
        m.wf(),
    ensures
        m.disabled().wf(),
        m.after_offer(active).wf(),
        m.drained().wf(),
        m.events_drained().wf(),
        m.with_events(seq![event]).wf(),
        m.after_send(outcome, batch, wall_ms, mono_ms, interval_ms).wf(),
        m.after_flush(outcome, batch, wall_ms, mono_ms, interval_ms).wf(),
        m.after_probe(probe, wall_ms, mono_ms, interval_ms).wf(),
{
}

/// Drop while down: while the endpoint is unreachable a metric snapshot is
/// neither sent nor queued; it is counted as dropped and the exporter stays
/// `Down` (an idle host that is down stays down too).
pub proof fn law_drop_while_down<E>(m: ExporterModel<E>, active: bool)
    requires
        m.wf(),
        m.state == ExportState::Down,
    ensures
        !m.admits(active),
        m.after_offer(active).state == ExportState::Down,
        m.after_offer(active).backlog.len() == 0,
        m.after_offer(active).dropped == sat_add(m.dropped, 1),
{
}

/// The idle gate: an idle snapshot is never sent; it is counted as dropped.
pub proof fn law_idle_snapshots_are_not_sent<E>(m: ExporterModel<E>)
    requires
        m.wf(),
    ensures
        !m.admits(false),
        m.after_offer(false).dropped == sat_add(m.dropped, 1),
        m.after_offer(false).backlog == m.backlog,
        m.state != ExportState::Down ==> m.after_offer(false).state == ExportState::Idle,
{
}

/// A rejected batch (401/403/400) is not an outage: the endpoint counts as
/// reachable, the state is `Exporting`, the reason is surfaced, and the batch
/// is dropped rather than queued.
pub proof fn law_rejection_is_not_an_outage<E>(
    m: ExporterModel<E>,
    reason: String,
    batch: Seq<E>,
    wall_ms: u64,
    mono_ms: u64,
    interval_ms: u64,
)
    requires
        m.wf(),
    ensures
        ({
            let n = m.after_send(
                SendOutcome::Misconfigured(reason),
                batch,
                wall_ms,
                mono_ms,
                interval_ms,
            );
            &&& n.state == ExportState::Exporting
            &&& n.reachable
            &&& n.last_error == Some(reason@)
            &&& n.backlog == m.backlog
            &&& n.dropped == sat_add(m.dropped, batch.len() as int)
        }),
{
}

/// Only an unreachable endpoint puts the exporter `Down`, and a `Down`
/// exporter leaves that state only through an answered probe.
pub proof fn law_down_means_unreachable<E>(
    m: ExporterModel<E>,
    outcome: SendOutcome,
    batch: Seq<E>,
    wall_ms: u64,
    mono_ms: u64,
    interval_ms: u64,
)
    requires
        m.wf(),
    ensures
        (m.after_send(outcome, batch, wall_ms, mono_ms, interval_ms).state == ExportState::Down)
            == (outcome is Unreachable),
        m.state == ExportState::Down ==> ((m.after_probe(
            Some(outcome),
            wall_ms,
            mono_ms,
            interval_ms,
        ).state == ExportState::Down) == (outcome is Unreachable)),
        m.state == ExportState::Down ==> m.after_flush(
            outcome,
            batch,
            wall_ms,
            mono_ms,
            interval_ms,
        ).state == ExportState::Down,
{
}

/// A batch answered with 429/5xx is sent again on the next tick, ahead of
/// the fresh snapshot, when it fits the backlog cap.
pub proof fn law_retried_batch_is_resent<E>(
    m: ExporterModel<E>,
    batch: Seq<E>,
    next: E,
    wall_ms: u64,
    mono_ms: u64,
    interval_ms: u64,
)
    requires
        m.wf(),
        m.backlog.len() == 0,
        batch.len() <= METRIC_BACKLOG_CAP,
    ensures
        ({
            let n = m.after_send(SendOutcome::Retry, batch, wall_ms, mono_ms, interval_ms);
            &&& n.admits(true)
            &&& n.backlog.push(next) == batch.push(next)
            &&& n.dropped == m.dropped
        }),
{
    assert(m.backlog + batch =~= batch);
}

/// A probe the endpoint rejects or throttles is not a success: it never
/// stamps the last success, and it reports why.
pub proof fn law_rejected_probe_is_not_success<E>(
    m: ExporterModel<E>,
    outcome: SendOutcome,
    wall_ms: u64,
    mono_ms: u64,
    interval_ms: u64,
)
    requires
        m.wf(),
        outcome is Retry || outcome is Misconfigured,
    ensures
        ({
            let n = m.after_probe(Some(outcome), wall_ms, mono_ms, interval_ms);
            &&& n.last_ok_ms == m.last_ok_ms
            &&& n.last_error is Some
            &&& n.reachable
            &&& n.state != ExportState::Down
        }),
{
}

/// An ingested probe brings a `Down` exporter back to `Exporting`; for an
/// `Idle` or `Exporting` one the heartbeat proves the connection without
/// changing the state.
pub proof fn law_probe_recovers<E>(m: ExporterModel<E>, wall_ms: u64, mono_ms: u64, interval_ms: u64)
    requires
        m.wf(),
    ensures
        ({
            let n = m.after_probe(Some(SendOutcome::Accepted), wall_ms, mono_ms, interval_ms);
            &&& n.reachable
            &&& n.last_error is None
            &&& n.last_ok_ms == Some(wall_ms)
            &&& m.state == ExportState::Down ==> n.state == ExportState::Exporting
            &&& m.state != ExportState::Down ==> n.state == m.state
        }),
{
}

/// The liveness probe runs in every state: each probe schedules the next
/// one an interval later, whatever it found.
pub proof fn law_probe_every_interval<E>(
    m: ExporterModel<E>,
    outcome: Option<SendOutcome>,
    wall_ms: u64,
    mono_ms: u64,
    interval_ms: u64,
)
    ensures
        m.after_probe(outcome, wall_ms, mono_ms, interval_ms).next_probe_ms == sat_add(
            mono_ms,
            interval_ms as int,
        ),
{
}

/// GPU events survive an outage: entering `Down` keeps them, a new one is
/// buffered while `Down`, and at the cap the oldest gives way to the newest.
pub proof fn law_gpu_events_survive_outage<E>(
    m: ExporterModel<E>,
    event: E,
    mono_ms: u64,
    interval_ms: u64,
)
    requires
        m.wf(),
    ensures
        m.down(mono_ms, interval_ms).events == m.events,
        m.down(mono_ms, interval_ms).with_events(seq![event]).events == keep_last(
            m.events.push(event),
            EVENT_BACKLOG_CAP as int,
        ),
        m.with_events(seq![event]).events.last() == event,
        m.with_events(seq![event]).events.len() == (if m.events.len()
            == EVENT_BACKLOG_CAP as int {
            m.events.len()
        } else {
            m.events.len() + 1
        }),
{
    assert(m.events + seq![event] =~= m.events.push(event));
}

/// An unanswered probe is an outage wherever it finds the exporter: from
/// `Idle` or `Exporting` (or a target that just appeared) the probe is the
/// first sign of it, and the exporter goes `Down`, stops claiming
/// reachability, reports `connection-failed`, drops the metric backlog,
/// keeps the GPU events, and probes again one interval later. An exporter
/// already `Down` stays as it was, but for the next probe time.
pub proof fn law_unanswered_probe_means_down<E>(
    m: ExporterModel<E>,
    wall_ms: u64,
    mono_ms: u64,
    interval_ms: u64,
)
    requires
        m.wf(),
    ensures
        ({
            let n = m.after_probe(Some(SendOutcome::Unreachable), wall_ms, mono_ms, interval_ms);
            &&& n.state == ExportState::Down
            &&& !n.reachable
            &&& n.backlog.len() == 0
            &&& n.events == m.events
            &&& n.dropped == m.dropped
            &&& n.last_ok_ms == m.last_ok_ms
            &&& n.next_probe_ms as int == (if mono_ms as int + interval_ms as int >= u64::MAX as int {
                u64::MAX as int
            } else {
                mono_ms as int + interval_ms as int
            })
            &&& m.state != ExportState::Down ==> n.last_error == Some("connection-failed"@)
            &&& m.state == ExportState::Down ==> n.last_error == m.last_error
        }),
{
}

} // verus!
