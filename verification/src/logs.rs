//! Engine container logs: which container a viewer streams, how Docker's
//! frames become lines, and how lines are forwarded to HEC.
//!
//! The Docker stream, the WebSocket and the HTTP requests live outside; these
//! functions decide what they carry.
use vstd::prelude::*;
use vstd::string::*;
use std::collections::VecDeque;
use crate::hec::{keep_last, HecTarget, SendOutcome};
use crate::text::{decode_utf8_lossy, has_prefix, opt_str, opt_view, str_eq, str_starts_with, substring, to_chars, utf8_lossy, views};

verus! {

/// Query parameters of `/ws/logs`: the engine endpoint whose container is to
/// be streamed; absent, the first tracked container.
#[derive(Clone, Debug, Default)]
pub struct LogsQuery {
    pub engine: Option<String>,
}

/// A line of the viewer protocol (`ERR:…` / `LOG:…`) rather than engine
/// output.
pub open spec fn control_line(line: Seq<char>) -> bool {
    has_prefix(line, "ERR:"@) || has_prefix(line, "LOG:"@)
}

/// Whether `line` is a protocol line (`ERR:…` / `LOG:…`); those never reach
/// HEC.
pub fn is_control_line(line: &str) -> (r: bool)
    ensures
        r == control_line(line@),
{
    str_starts_with(line, "ERR:") || str_starts_with(line, "LOG:")
}

/// What the log viewer sends when no container can be found for a request.
pub fn no_container_message(engine: Option<&str>) -> (r: String)
    ensures
        engine matches Some(e) ==> r@ == "ERR:No container found for engine "@ + e@,
        engine is None ==> r@ == "ERR:No engine container found"@,
{
    match engine {
        Some(e) => {
            let mut r = String::from_str("ERR:No container found for engine ");
            r.append(e);
            r
        },
        None => String::from_str("ERR:No engine container found"),
    }
}

// ---------------------------------------------------------------------------
// Choosing the container
// ---------------------------------------------------------------------------

/// What the log viewer reads of a tracked engine.
#[derive(Clone, Debug)]
pub struct EngineContainer {
    pub endpoint: String,
    pub container_id: Option<String>,
}

/// The index of the first engine at `endpoint`.
pub open spec fn first_at_endpoint(s: Seq<EngineContainer>, endpoint: Seq<char>, i: int) -> Option<int>
    decreases s.len() - i,
{
    if i < 0 || i >= s.len() {
        None
    } else if s[i].endpoint@ == endpoint {
        Some(i)
    } else {
        first_at_endpoint(s, endpoint, i + 1)
    }
}

/// The first container id from index `i` on.
pub open spec fn first_container(s: Seq<EngineContainer>, i: int) -> Option<Seq<char>>
    decreases s.len() - i,
{
    if i < 0 || i >= s.len() {
        None
    } else if s[i].container_id is Some {
        opt_view(s[i].container_id)
    } else {
        first_container(s, i + 1)
    }
}

/// The container to stream: with an endpoint, that engine's container (no
/// fallback to another engine's); without one, the first known container.
pub open spec fn chosen_container(s: Seq<EngineContainer>, engine: Option<Seq<char>>) -> Option<
    Seq<char>,
> {
    match engine {
        Some(e) => match first_at_endpoint(s, e, 0) {
            Some(i) => opt_view(s[i].container_id),
            None => None,
        },
        None => first_container(s, 0),
    }
}

fn index_of_endpoint(snapshots: &[EngineContainer], endpoint: &str) -> (r: Option<usize>)
    ensures
        match r {
            Some(i) => i < snapshots@.len() && first_at_endpoint(snapshots@, endpoint@, 0) == Some(
                i as int,
            ),
            None => first_at_endpoint(snapshots@, endpoint@, 0) is None,
        },
{
    let mut i: usize = 0;
    while i < snapshots.len()
        invariant
            i <= snapshots@.len(),
            first_at_endpoint(snapshots@, endpoint@, 0) == first_at_endpoint(
                snapshots@,
                endpoint@,
                i as int,
            ),
        decreases snapshots.len() - i,
    {
        if str_eq(snapshots[i].endpoint.as_str(), endpoint) {
            return Some(i);
        }
        i = i + 1;
    }
    None
}

fn index_of_container(snapshots: &[EngineContainer]) -> (r: Option<usize>)
    ensures
        match r {
            Some(i) => i < snapshots@.len() && snapshots@[i as int].container_id is Some
                && first_container(snapshots@, 0) == opt_view(snapshots@[i as int].container_id),
            None => first_container(snapshots@, 0) is None,
        },
{
    let mut i: usize = 0;
    while i < snapshots.len()
        invariant
            i <= snapshots@.len(),
            first_container(snapshots@, 0) == first_container(snapshots@, i as int),
        decreases snapshots.len() - i,
    {
        if snapshots[i].container_id.is_some() {
            return Some(i);
        }
        i = i + 1;
    }
    None
}

fn clone_container_id(o: &Option<String>) -> (r: Option<String>)
    ensures
        opt_view(r) == opt_view(*o),
{
    match o {
        Some(id) => Some(id.clone()),
        None => None,
    }
}

/// Picks the container id for an engine selection. With `engine` given,
/// only that endpoint's container matches — an unknown endpoint or a native
/// engine yields `None`. Without it, the first engine with a container wins.
pub fn find_container(snapshots: &[EngineContainer], engine: Option<&str>) -> (r: Option<String>)
    ensures
        opt_view(r) == chosen_container(snapshots@, opt_str(engine)),
{
    match engine {
        Some(endpoint) => match index_of_endpoint(snapshots, endpoint) {
            Some(i) => clone_container_id(&snapshots[i].container_id),
            None => None,
        },
        None => match index_of_container(snapshots) {
            Some(i) => clone_container_id(&snapshots[i].container_id),
            None => None,
        },
    }
}

/// The container ids of the tracked engines, in order.
pub open spec fn container_ids(s: Seq<EngineContainer>) -> Seq<Seq<char>>
    decreases s.len(),
{
    if s.len() == 0 {
        Seq::empty()
    } else {
        let rest = container_ids(s.drop_last());
        match s.last().container_id {
            Some(id) => rest.push(id@),
            None => rest,
        }
    }
}

/// The containers whose logs are to be forwarded: those of the tracked
/// engines.
pub fn wanted_containers(snapshots: &[EngineContainer]) -> (r: Vec<String>)
    ensures
        views(r@) == container_ids(snapshots@),
{
    let mut out: Vec<String> = Vec::new();
    let mut i: usize = 0;
    while i < snapshots.len()
        invariant
            i <= snapshots@.len(),
            views(out@) == container_ids(snapshots@.take(i as int)),
        decreases snapshots.len() - i,
    {
        assert(snapshots@.take(i + 1).drop_last() =~= snapshots@.take(i as int));
        match &snapshots[i].container_id {
            Some(id) => {
                let ghost before = out@;
                out.push(id.clone());
                assert(views(out@) =~= views(before).push(id@));
            },
            None => {},
        }
        i = i + 1;
    }
    assert(snapshots@.take(snapshots@.len() as int) =~= snapshots@);
    out
}

/// The first twelve characters of `s` (all of it when shorter).
pub open spec fn short_id(s: Seq<char>) -> Seq<char> {
    if s.len() > 12 {
        s.subrange(0, 12)
    } else {
        s
    }
}

/// The name shown for a container: the daemon's name without its leading
/// `/`, or the short id when there is no such name.
pub open spec fn display_name_spec(inspected: Option<Seq<char>>, id: Seq<char>) -> Seq<char> {
    match inspected {
        Some(n) => if n.len() > 0 && n[0] == '/' {
            n.subrange(1, n.len() as int)
        } else {
            short_id(id)
        },
        None => short_id(id),
    }
}

/// The display name of a container, from the name the daemon reported (if
/// it could be asked) and the container id.
pub fn display_name(inspected: Option<&str>, container_id: &str) -> (r: String)
    ensures
        r@ == display_name_spec(opt_str(inspected), container_id@),
{
    match inspected {
        Some(n) => {
            let c = to_chars(n);
            if c.len() > 0 && c[0] == '/' {
                return substring(n, 1, c.len());
            }
        },
        None => {},
    }
    let c = to_chars(container_id);
    let to = if c.len() > 12 {
        12
    } else {
        c.len()
    };
    let r = substring(container_id, 0, to);
    proof {
        if c.len() <= 12 {
            assert(container_id@.subrange(0, to as int) =~= container_id@);
        }
    }
    r
}

// ---------------------------------------------------------------------------
// Line buffering
// ---------------------------------------------------------------------------

/// Reading `s` left to right: the complete lines so far (without their
/// newline) and the text after the last newline.
pub open spec fn line_split(s: Seq<char>) -> (Seq<Seq<char>>, Seq<char>)
    decreases s.len(),
{
    if s.len() == 0 {
        (Seq::empty(), Seq::empty())
    } else {
        let (lines, rest) = line_split(s.drop_last());
        if s.last() == '\n' {
            (lines.push(rest), Seq::empty())
        } else {
            (lines, rest.push(s.last()))
        }
    }
}

/// A line as emitted: behind the prefix, when there is one.
pub open spec fn prefixed(prefix: Option<Seq<char>>, body: Seq<char>) -> Seq<char> {
    match prefix {
        Some(p) => p + body,
        None => body,
    }
}

/// Each of `lines`, prefixed.
pub open spec fn prefixed_lines(prefix: Option<Seq<char>>, lines: Seq<Seq<char>>) -> Seq<Seq<char>> {
    lines.map_values(|l: Seq<char>| prefixed(prefix, l))
}

fn with_prefix(prefix: Option<&str>, body: String) -> (r: String)
    ensures
        r@ == prefixed(opt_str(prefix), body@),
{
    match prefix {
        Some(p) => {
            let mut r = String::from_str(p);
            r.append(body.as_str());
            r
        },
        None => body,
    }
}

/// Adds `chunk` to `buffer`, then emits every complete line (up to a
/// newline, without it), each behind `prefix`; the trailing partial line
/// stays in `buffer` for the next chunk.
pub fn buffer_lines(buffer: &mut String, chunk: &[u8], prefix: Option<&str>) -> (r: Vec<String>)
    ensures
        views(r@) == prefixed_lines(
            opt_str(prefix),
            line_split(old(buffer)@ + utf8_lossy(chunk@)).0,
        ),
        final(buffer)@ == line_split(old(buffer)@ + utf8_lossy(chunk@)).1,
{
    let decoded = decode_utf8_lossy(chunk);
    let mut total = buffer.clone();
    total.append(decoded.as_str());
    let cs = to_chars(total.as_str());
    let ghost p = opt_str(prefix);
    let ghost mut lines: Seq<Seq<char>> = Seq::empty();
    let mut out: Vec<String> = Vec::new();
    let mut start: usize = 0;
    let mut i: usize = 0;
    assert(cs@.take(0) =~= Seq::<char>::empty());
    assert(cs@.subrange(0, 0) =~= Seq::<char>::empty());
    while i < cs.len()
        invariant
            cs@ == total@,
            p == opt_str(prefix),
            start <= i <= cs@.len(),
            line_split(cs@.take(i as int)) == (lines, cs@.subrange(start as int, i as int)),
            views(out@) == prefixed_lines(p, lines),
        decreases cs.len() - i,
    {
        assert(cs@.take(i + 1).drop_last() =~= cs@.take(i as int));
        assert(cs@.take(i + 1).last() == cs@[i as int]);
        if cs[i] == '\n' {
            let body = substring(total.as_str(), start, i);
            let line = with_prefix(prefix, body);
            let ghost before = out@;
            let ghost old_lines = lines;
            out.push(line);
            proof {
                lines = lines.push(body@);
                assert(views(out@) =~= views(before).push(line@));
                assert(prefixed_lines(p, lines) =~= prefixed_lines(p, old_lines).push(
                    prefixed(p, body@),
                ));
            }
            start = i + 1;
            assert(cs@.subrange(start as int, i + 1) =~= Seq::<char>::empty());
        } else {
            assert(cs@.subrange(start as int, i + 1) =~= cs@.subrange(start as int, i as int).push(
                cs@[i as int],
            ));
        }
        i = i + 1;
    }
    assert(cs@.take(cs@.len() as int) =~= cs@);
    *buffer = substring(total.as_str(), start, cs.len());
    out
}

/// At the end of a stream: the partial line left in `buffer`, behind
/// `prefix`, unless there is none; the buffer is emptied.
pub fn take_trailing(buffer: &mut String, prefix: Option<&str>) -> (r: Option<String>)
    ensures
        old(buffer)@.len() == 0 ==> r is None,
        old(buffer)@.len() > 0 ==> opt_view(r) == Some(prefixed(opt_str(prefix), old(buffer)@)),
        final(buffer)@.len() == 0,
{
    if buffer.unicode_len() == 0 {
        return None;
    }
    let body = buffer.clone();
    *buffer = String::new();
    Some(with_prefix(prefix, body))
}

// ---------------------------------------------------------------------------
// Laws of line buffering
// ---------------------------------------------------------------------------

/// Lines and the text after them, with their newlines put back.
pub open spec fn joined(lines: Seq<Seq<char>>, rest: Seq<char>) -> Seq<char>
    decreases lines.len(),
{
    if lines.len() == 0 {
        rest
    } else {
        lines[0] + seq!['\n'] + joined(lines.drop_first(), rest)
    }
}

proof fn lemma_joined_push(lines: Seq<Seq<char>>, l: Seq<char>, rest: Seq<char>)
    ensures
        joined(lines.push(l), rest) == joined(lines, l + seq!['\n'] + rest),
    decreases lines.len(),
{
    if lines.len() > 0 {
        assert(lines.push(l).drop_first() =~= lines.drop_first().push(l));
        assert(lines.push(l)[0] == lines[0]);
        lemma_joined_push(lines.drop_first(), l, rest);
        assert(joined(lines.push(l), rest) == lines[0] + seq!['\n'] + joined(
            lines.push(l).drop_first(),
            rest,
        ));
    } else {
        assert(lines.push(l).drop_first() =~= Seq::<Seq<char>>::empty());
        assert(lines.push(l)[0] == l);
        assert(joined(lines.push(l), rest) == l + seq!['\n'] + joined(
            lines.push(l).drop_first(),
            rest,
        ));
    }
}

/// Splitting loses and invents nothing: the lines, each followed by its
/// newline, and then the rest are the text; no line and not the rest holds
/// a newline.
pub proof fn law_lines_reassemble(s: Seq<char>)
    ensures
        joined(line_split(s).0, line_split(s).1) == s,
        forall|i: int|
            0 <= i < line_split(s).0.len() ==> !(#[trigger] line_split(s).0[i]).contains('\n'),
        !line_split(s).1.contains('\n'),
    decreases s.len(),
{
    if s.len() > 0 {
        let t = s.drop_last();
        law_lines_reassemble(t);
        let (lines, rest) = line_split(t);
        let c = s.last();
        if c == '\n' {
            lemma_joined_push(lines, rest, Seq::empty());
            assert(rest + seq!['\n'] + Seq::<char>::empty() =~= rest.push('\n'));
            lemma_joined_append(lines, rest, seq!['\n']);
            assert(s =~= t.push('\n'));
            assert forall|i: int| 0 <= i < lines.push(rest).len() implies !(#[trigger] lines.push(
                rest,
            )[i]).contains('\n') by {
                if i < lines.len() {
                    assert(lines.push(rest)[i] == lines[i]);
                }
            }
        } else {
            lemma_joined_append(lines, rest, seq![c]);
            assert(rest + seq![c] =~= rest.push(c));
            assert(s =~= t + seq![c]);
            assert(!rest.push(c).contains('\n')) by {
                if rest.push(c).contains('\n') {
                    let j = choose|j: int| 0 <= j < rest.push(c).len() && rest.push(c)[j] == '\n';
                    if j < rest.len() {
                        assert(rest[j] == '\n');
                    }
                }
            }
        }
    }
}

proof fn lemma_joined_append(lines: Seq<Seq<char>>, rest: Seq<char>, more: Seq<char>)
    ensures
        joined(lines, rest) + more == joined(lines, rest + more),
    decreases lines.len(),
{
    if lines.len() > 0 {
        lemma_joined_append(lines.drop_first(), rest, more);
        assert(lines[0] + seq!['\n'] + joined(lines.drop_first(), rest) + more =~= lines[0]
            + seq!['\n'] + (joined(lines.drop_first(), rest) + more));
    }
}

proof fn lemma_split_no_newline(s: Seq<char>)
    requires
        !s.contains('\n'),
    ensures
        line_split(s) == (Seq::<Seq<char>>::empty(), s),
    decreases s.len(),
{
    if s.len() > 0 {
        let t = s.drop_last();
        assert(!t.contains('\n')) by {
            if t.contains('\n') {
                let j = choose|j: int| 0 <= j < t.len() && t[j] == '\n';
                assert(s[j] == '\n');
            }
        }
        lemma_split_no_newline(t);
        assert(s[s.len() - 1] != '\n');
        assert(t.push(s.last()) =~= s);
    }
}

/// Frame boundaries do not matter: feeding `a` and then `b` emits the lines
/// of `a`, then those of its leftover followed by `b`, which are together
/// the lines of `a + b`, and leaves the same leftover.
pub proof fn law_chunking_does_not_matter(a: Seq<char>, b: Seq<char>)
    ensures
        line_split(a).0 + line_split(line_split(a).1 + b).0 == line_split(a + b).0,
        line_split(line_split(a).1 + b).1 == line_split(a + b).1,
    decreases b.len(),
{
    let (la, ra) = line_split(a);
    if b.len() == 0 {
        law_lines_reassemble(a);
        lemma_split_no_newline(ra);
        assert(ra + b =~= ra);
        assert(a + b =~= a);
        assert(la + Seq::<Seq<char>>::empty() =~= la);
    } else {
        let b0 = b.drop_last();
        law_chunking_does_not_matter(a, b0);
        assert((a + b).drop_last() =~= a + b0);
        assert((a + b).last() == b.last());
        assert((ra + b).drop_last() =~= ra + b0);
        assert((ra + b).last() == b.last());
        let (l1, r1) = line_split(ra + b0);
        if b.last() == '\n' {
            assert(la + l1.push(r1) =~= (la + l1).push(r1));
        }
    }
}

// ---------------------------------------------------------------------------
// Forwarding engine logs to HEC
// ---------------------------------------------------------------------------

/// One engine log line as a plain HEC event (not a metrics event), before
/// it is written as JSON: `{"time", "host", "source", "sourcetype",
/// "index", "event": {"container", "line"}}`.
#[derive(Clone, Debug)]
pub struct LogEvent {
    /// Send time in whole seconds: the Docker stream carries no per-line
    /// timestamps.
    pub time: u64,
    pub host: String,
    pub source: String,
    pub sourcetype: String,
    pub index: String,
    pub container: String,
    pub line: String,
}

/// `e` is the event for `line` of `container`, from `host`, aimed at
/// `index`, sent at `time_ms`.
pub open spec fn is_log_event(
    e: LogEvent,
    line: Seq<char>,
    container: Seq<char>,
    host: Seq<char>,
    index: Seq<char>,
    time_ms: u64,
) -> bool {
    &&& e.time == time_ms / 1000
    &&& e.host@ == host
    &&& e.source@ == "spark-dashboard"@
    &&& e.sourcetype@ == "spark_dashboard_engine_log"@
    &&& e.index@ == index
    &&& e.container@ == container
    &&& e.line@ == line
}

/// One HEC event for a single engine log line, aimed at `index`.
pub fn build_log_event(line: &str, container: &str, host: &str, index: &str, time_ms: u64) -> (r: LogEvent)
    ensures
        is_log_event(r, line@, container@, host@, index@, time_ms),
{
    LogEvent {
        time: time_ms / 1000,
        host: host.to_owned(),
        source: String::from_str("spark-dashboard"),
        sourcetype: String::from_str("spark_dashboard_engine_log"),
        index: index.to_owned(),
        container: container.to_owned(),
        line: line.to_owned(),
    }
}

/// Cap of the forwarder's buffer; the oldest line is dropped beyond it.
pub const LOG_HEC_BUFFER_CAP: usize = 1000;

/// The log forwarder as plain values: the `(container, line)` pairs waiting
/// to be sent, oldest first, and when the next send may be tried
/// (monotonic milliseconds).
pub struct ForwarderModel {
    pub buffer: Seq<(Seq<char>, Seq<char>)>,
    pub next_attempt_ms: u64,
}

/// Forwards tracked engine containers' log lines to HEC, in batches, with a
/// bounded buffer and a back-off after a failed send.
pub struct LogForwarder {
    buffer: VecDeque<(String, String)>,
    next_attempt_ms: u64,
}

/// The views of a list of string pairs.
pub open spec fn pair_views(s: Seq<(String, String)>) -> Seq<(Seq<char>, Seq<char>)> {
    s.map_values(|p: (String, String)| (p.0@, p.1@))
}

impl View for LogForwarder {
    type V = ForwarderModel;

    closed spec fn view(&self) -> ForwarderModel {
        ForwarderModel { buffer: pair_views(self.buffer@), next_attempt_ms: self.next_attempt_ms }
    }
}

impl ForwarderModel {
    /// The buffer is within its cap.
    pub open spec fn wf(self) -> bool {
        self.buffer.len() <= LOG_HEC_BUFFER_CAP
    }

    /// After a line from `container` was read from its stream: protocol
    /// lines are skipped, and with no target the line is discarded;
    /// otherwise it is buffered, the oldest giving way at the cap.
    pub open spec fn after_line(self, container: Seq<char>, line: Seq<char>, has_target: bool) -> Self {
        if control_line(line) || !has_target {
            self
        } else {
            ForwarderModel {
                buffer: keep_last(self.buffer.push((container, line)), LOG_HEC_BUFFER_CAP as int),
                ..self
            }
        }
    }

    /// Whether a batch is to be sent now.
    pub open spec fn due(self, has_target: bool, now_ms: u64) -> bool {
        has_target && self.buffer.len() > 0 && now_ms >= self.next_attempt_ms
    }

    /// After the batch was POSTed with `outcome` at `now_ms`: an ingested
    /// batch leaves the buffer; a retryable or unreachable answer keeps it
    /// and backs off an interval; a rejection drops it and backs off.
    pub open spec fn after_send(self, outcome: SendOutcome, now_ms: u64, interval_ms: u64) -> Self {
        match outcome {
            SendOutcome::Accepted => ForwarderModel { buffer: Seq::empty(), next_attempt_ms: now_ms },
            SendOutcome::Retry | SendOutcome::Unreachable => ForwarderModel {
                next_attempt_ms: crate::hec::sat_add(now_ms, interval_ms as int),
                ..self
            },
            SendOutcome::Misconfigured(_) => ForwarderModel {
                buffer: Seq::empty(),
                next_attempt_ms: crate::hec::sat_add(now_ms, interval_ms as int),
            },
        }
    }
}

impl LogForwarder {
    /// An empty forwarder that may send from `now_ms` on.
    pub fn new(now_ms: u64) -> (r: Self)
        ensures
            r@.wf(),
            r@.buffer.len() == 0,
            r@.next_attempt_ms == now_ms,
    {
        LogForwarder { buffer: VecDeque::new(), next_attempt_ms: now_ms }
    }

    /// Takes a line read from `container`'s stream. Returns whether the
    /// oldest buffered line had to be dropped to make room.
    pub fn accept_line(&mut self, container: &str, line: String, has_target: bool) -> (dropped: bool)
        requires
            old(self)@.wf(),
        ensures
            final(self)@ == old(self)@.after_line(container@, line@, has_target),
            final(self)@.wf(),
            dropped == (!control_line(line@) && has_target && old(self)@.buffer.len()
                == LOG_HEC_BUFFER_CAP),
    {
        if is_control_line(line.as_str()) || !has_target {
            return false;
        }
        let ghost before = self.buffer@;
        let mut dropped = false;
        if self.buffer.len() >= LOG_HEC_BUFFER_CAP {
            let _ = self.buffer.pop_front();
            dropped = true;
        }
        self.buffer.push_back((container.to_owned(), line));
        proof {
            let cap = LOG_HEC_BUFFER_CAP as int;
            let bv = pair_views(before);
            let nv = bv.push((container@, line@));
            if before.len() == cap {
                assert(pair_views(self.buffer@) =~= nv.subrange(1, nv.len() as int));
            } else {
                assert(pair_views(self.buffer@) =~= nv);
            }
        }
        dropped
    }

    /// Whether a batch is to be sent now.
    pub fn flush_due(&self, has_target: bool, now_ms: u64) -> (r: bool)
        ensures
            r == self@.due(has_target, now_ms),
    {
        has_target && self.buffer.len() > 0 && now_ms >= self.next_attempt_ms
    }

    /// The buffered `(container, line)` pairs, oldest first.
    pub fn batch(&self) -> (r: Vec<(String, String)>)
        ensures
            pair_views(r@) == self@.buffer,
    {
        let mut r: Vec<(String, String)> = Vec::new();
        let mut i: usize = 0;
        while i < self.buffer.len()
            invariant
                i <= self.buffer@.len(),
                pair_views(r@) == pair_views(self.buffer@).take(i as int),
            decreases self.buffer.len() - i,
        {
            let (c, l) = &self.buffer[i];
            let ghost before = r@;
            let pair = (c.clone(), l.clone());
            r.push(pair);
            assert(pair_views(r@) =~= pair_views(before).push((pair.0@, pair.1@)));
            assert(pair_views(self.buffer@)[i as int] == (c@, l@));
            assert(pair_views(r@) =~= pair_views(self.buffer@).take(i + 1));
            i = i + 1;
        }
        assert(pair_views(self.buffer@).take(self.buffer@.len() as int) =~= pair_views(
            self.buffer@,
        ));
        r
    }

    /// The buffered lines, oldest first, as HEC events for the target's
    /// events index (never its metrics index), stamped with the send time
    /// `time_ms`.
    pub fn events(&self, target: &HecTarget, host: &str, time_ms: u64) -> (r: Vec<LogEvent>)
        ensures
            r@.len() == self@.buffer.len(),
            forall|i: int|
                0 <= i < r@.len() ==> is_log_event(
                    #[trigger] r@[i],
                    self@.buffer[i].1,
                    self@.buffer[i].0,
                    host@,
                    target.events_index@,
                    time_ms,
                ),
    {
        let mut r: Vec<LogEvent> = Vec::new();
        let mut i: usize = 0;
        while i < self.buffer.len()
            invariant
                i <= self.buffer@.len(),
                r@.len() == i,
                forall|k: int|
                    0 <= k < i ==> is_log_event(
                        #[trigger] r@[k],
                        self@.buffer[k].1,
                        self@.buffer[k].0,
                        host@,
                        target.events_index@,
                        time_ms,
                    ),
            decreases self.buffer.len() - i,
        {
            let (c, l) = &self.buffer[i];
            assert(self@.buffer[i as int] == (c@, l@));
            let e = build_log_event(l.as_str(), c.as_str(), host, target.events_index.as_str(), time_ms);
            r.push(e);
            i = i + 1;
        }
        r
    }

    /// Records how the POST of the batch was answered at `now_ms`.
    pub fn record_send(&mut self, outcome: SendOutcome, now_ms: u64, interval_ms: u64)
        requires
            old(self)@.wf(),
        ensures
            final(self)@ == old(self)@.after_send(outcome, now_ms, interval_ms),
            final(self)@.wf(),
    {
        match outcome {
            SendOutcome::Accepted => {
                self.buffer.clear();
                self.next_attempt_ms = now_ms;
                assert(pair_views(self.buffer@) =~= Seq::empty());
            },
            SendOutcome::Retry | SendOutcome::Unreachable => {
                self.next_attempt_ms = now_ms.saturating_add(interval_ms);
            },
            SendOutcome::Misconfigured(_) => {
                self.buffer.clear();
                self.next_attempt_ms = now_ms.saturating_add(interval_ms);
                assert(pair_views(self.buffer@) =~= Seq::empty());
            },
        }
    }
}

/// The forwarder never sends protocol lines, never buffers without a
/// target, keeps its buffer within the cap, and keeps a batch that met a
/// retryable or unreachable answer for the next attempt.
pub proof fn law_forwarder(
    m: ForwarderModel,
    container: Seq<char>,
    line: Seq<char>,
    has_target: bool,
    outcome: SendOutcome,
    now_ms: u64,
    interval_ms: u64,
)
    requires
        m.wf(),
    ensures
        control_line(line) ==> m.after_line(container, line, has_target) == m,
        !has_target ==> m.after_line(container, line, has_target) == m,
        m.after_line(container, line, has_target).wf(),
        (outcome is Retry || outcome is Unreachable) ==> m.after_send(
            outcome,
            now_ms,
            interval_ms,
        ).buffer == m.buffer,
        (outcome is Accepted || outcome is Misconfigured) ==> m.after_send(
            outcome,
            now_ms,
            interval_ms,
        ).buffer.len() == 0,
{
}

} // verus!
