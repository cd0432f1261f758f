//! Engine discovery: reading the launch command lines of host processes and
//! Docker containers, and folding the candidates of the two scans together.
//!
//! Everything that touches the host (the process table, `/proc`, the Docker
//! daemon, the health probe) happens outside; these functions decide what the
//! gathered facts mean.
use vstd::prelude::*;
use vstd::string::*;
use crate::engines::{DeploymentMode, EngineType};
use crate::sorted::{lemma_same_multiset_no_duplicates, lemma_same_multiset_same_values, lemma_sorted_unique_is_strict, lemma_unique_within, sort_u32, sorted_le, sorted_values, strictly_sorted, u32_le, vec_contains};
use vstd::relations::total_ordering;
use crate::text::{lowercase, to_lowercase, to_decimal, decimal, opt_str, decode_utf8_lossy, utf8_lossy, opt_view, parse_uint, parse_unsigned, trim, trimmed, contains, ends_with, has_infix, has_prefix, has_suffix, split_whitespace, starts_with, str_eq, str_starts_with, substring, to_chars, views, words};

verus! {

/// A candidate engine discovered by the detection layers.
#[derive(Clone, Debug)]
pub struct DetectedEngine {
    pub engine_type: EngineType,
    pub endpoint: String,
    pub deployment_mode: DeploymentMode,
    /// Model identity recovered from the launch command line.
    pub served_model: Option<String>,
    /// Host-namespace PIDs belonging to this engine.
    pub pids: Vec<u32>,
    /// Docker container id when discovered via the Docker scan.
    pub container_id: Option<String>,
}

/// A detected engine as plain values.
pub struct CandidateView {
    pub engine_type: EngineType,
    pub endpoint: Seq<char>,
    pub deployment_mode: DeploymentMode,
    pub served_model: Option<Seq<char>>,
    pub pids: Seq<u32>,
    pub container_id: Option<Seq<char>>,
}

impl View for DetectedEngine {
    type V = CandidateView;

    open spec fn view(&self) -> CandidateView {
        CandidateView {
            engine_type: self.engine_type,
            endpoint: self.endpoint@,
            deployment_mode: self.deployment_mode,
            served_model: opt_view(self.served_model),
            pids: self.pids@,
            container_id: opt_view(self.container_id),
        }
    }
}

/// The views of a list of candidates.
pub open spec fn candidate_views(v: Seq<DetectedEngine>) -> Seq<CandidateView> {
    v.map_values(|d: DetectedEngine| d@)
}

/// The port vLLM serves on when it is not told otherwise.
pub const VLLM_DEFAULT_PORT: u16 = 8000;

// ---------------------------------------------------------------------------
// Command-line vocabulary
// ---------------------------------------------------------------------------

/// An argument that names the vLLM entrypoint: the `vllm` binary itself, a
/// path ending in `/vllm`, or the `vllm.entrypoints` Python module.
pub open spec fn is_vllm_arg(a: Seq<char>) -> bool {
    a == "vllm"@ || has_suffix(a, "/vllm"@) || has_infix(a, "vllm.entrypoints"@)
}

/// Whether `arg` names the vLLM entrypoint.
pub fn is_vllm_entry(arg: &str) -> (r: bool)
    ensures
        r == is_vllm_arg(arg@),
{
    let a = to_chars(arg);
    let suffix = to_chars("/vllm");
    let module = to_chars("vllm.entrypoints");
    str_eq(arg, "vllm") || ends_with(a.as_slice(), suffix.as_slice()) || contains(
        a.as_slice(),
        module.as_slice(),
    )
}

/// A value that can follow `--model` / `serve`: non-empty and not a flag.
pub open spec fn is_model_value(v: Seq<char>) -> bool {
    v.len() > 0 && v[0] != '-'
}

/// `s` with a `--model=` prefix removed, when it has one.
pub open spec fn model_eq_value(s: Seq<char>) -> Seq<char> {
    s.subrange("--model="@.len() as int, s.len() as int)
}

/// What the argument at `i` says about the model through the `--model` flag.
pub open spec fn flag_model_at(ws: Seq<Seq<char>>, i: int) -> Option<Seq<char>> {
    if ws[i] == "--model"@ {
        if i + 1 < ws.len() && is_model_value(ws[i + 1]) {
            Some(ws[i + 1])
        } else {
            None
        }
    } else if has_prefix(ws[i], "--model="@) && model_eq_value(ws[i]).len() > 0 {
        Some(model_eq_value(ws[i]))
    } else {
        None
    }
}

/// The first model named by a `--model` flag at or after `i`.
pub open spec fn first_flag_model(ws: Seq<Seq<char>>, i: int) -> Option<Seq<char>>
    decreases ws.len() - i,
{
    if i < 0 || i >= ws.len() {
        None
    } else if flag_model_at(ws, i) is Some {
        flag_model_at(ws, i)
    } else {
        first_flag_model(ws, i + 1)
    }
}

/// The first index at or after `from` holding `w`.
pub open spec fn first_index_of(ws: Seq<Seq<char>>, w: Seq<char>, from: int) -> Option<int>
    decreases ws.len() - from,
{
    if from < 0 || from >= ws.len() {
        None
    } else if ws[from] == w {
        Some(from)
    } else {
        first_index_of(ws, w, from + 1)
    }
}

/// What a vLLM entrypoint at `idx` says about the model: the argument after
/// the first `serve` that follows it, when that is a model value.
pub open spec fn serve_model_at(ws: Seq<Seq<char>>, idx: int) -> Option<Seq<char>> {
    if is_vllm_arg(ws[idx]) {
        match first_index_of(ws, "serve"@, idx + 1) {
            Some(j) => if j + 1 < ws.len() && is_model_value(ws[j + 1]) {
                Some(ws[j + 1])
            } else {
                None
            },
            None => None,
        }
    } else {
        None
    }
}

/// The first model found positionally (`vllm serve <id>`) from `idx` on.
pub open spec fn first_serve_model(ws: Seq<Seq<char>>, idx: int) -> Option<Seq<char>>
    decreases ws.len() - idx,
{
    if idx < 0 || idx >= ws.len() {
        None
    } else if serve_model_at(ws, idx) is Some {
        serve_model_at(ws, idx)
    } else {
        first_serve_model(ws, idx + 1)
    }
}

/// The model a vLLM command line serves: the `--model` flag wins over the
/// positional `serve <id>` form.
pub open spec fn model_from_words(ws: Seq<Seq<char>>) -> Option<Seq<char>> {
    match first_flag_model(ws, 0) {
        Some(m) => Some(m),
        None => first_serve_model(ws, 0),
    }
}

fn is_model_value_exec(v: &str) -> (r: bool)
    ensures
        r == is_model_value(v@),
{
    let c = to_chars(v);
    c.len() > 0 && c[0] != '-'
}

fn flag_model_at_exec(args: &[String], i: usize) -> (r: Option<String>)
    requires
        i < args@.len(),
    ensures
        opt_view(r) == flag_model_at(views(args@), i as int),
{
    let ghost ws = views(args@);
    if str_eq(args[i].as_str(), "--model") {
        if i + 1 < args.len() && is_model_value_exec(args[i + 1].as_str()) {
            return Some(args[i + 1].clone());
        }
        return None;
    }
    let a = to_chars(args[i].as_str());
    let p = to_chars("--model=");
    if starts_with(a.as_slice(), p.as_slice()) && p.len() < a.len() {
        let v = substring(args[i].as_str(), p.len(), a.len());
        return Some(v);
    }
    None
}

fn first_index_of_exec(args: &[String], w: &str, from: usize) -> (r: Option<usize>)
    ensures
        match r {
            Some(j) => first_index_of(views(args@), w@, from as int) == Some(j as int),
            None => first_index_of(views(args@), w@, from as int) is None,
        },
        r matches Some(j) ==> from <= j < args@.len(),
{
    let ghost ws = views(args@);
    let mut j = from;
    while j < args.len()
        invariant
            from <= j,
            ws == views(args@),
            first_index_of(ws, w@, from as int) == first_index_of(ws, w@, j as int),
        decreases args.len() - j,
    {
        if str_eq(args[j].as_str(), w) {
            return Some(j);
        }
        j = j + 1;
    }
    None
}

fn serve_model_at_exec(args: &[String], idx: usize) -> (r: Option<String>)
    requires
        idx < args@.len(),
    ensures
        opt_view(r) == serve_model_at(views(args@), idx as int),
{
    if !is_vllm_entry(args[idx].as_str()) {
        return None;
    }
    match first_index_of_exec(args, "serve", idx + 1) {
        Some(j) => {
            if j + 1 < args.len() && is_model_value_exec(args[j + 1].as_str()) {
                Some(args[j + 1].clone())
            } else {
                None
            }
        },
        None => None,
    }
}

/// The served model id in a vLLM launch command given as separate
/// arguments. Recognizes `--model <id>`, `--model=<id>` and the positional
/// `vllm serve <id>`; the flag wins when both appear.
pub fn parse_model_from_args(args: &[String]) -> (r: Option<String>)
    ensures
        opt_view(r) == model_from_words(views(args@)),
{
    let ghost ws = views(args@);
    let mut i: usize = 0;
    while i < args.len()
        invariant
            ws == views(args@),
            first_flag_model(ws, 0) == first_flag_model(ws, i as int),
        decreases args.len() - i,
    {
        let m = flag_model_at_exec(args, i);
        if m.is_some() {
            return m;
        }
        i = i + 1;
    }
    let mut idx: usize = 0;
    while idx < args.len()
        invariant
            ws == views(args@),
            first_flag_model(ws, 0) is None,
            first_serve_model(ws, 0) == first_serve_model(ws, idx as int),
        decreases args.len() - idx,
    {
        let m = serve_model_at_exec(args, idx);
        if m.is_some() {
            return m;
        }
        idx = idx + 1;
    }
    None
}

/// The served model id in a vLLM launch command given as one
/// whitespace-separated string (Docker's `command`, a `docker top` row).
pub fn parse_model_from_command_str(cmd: &str) -> (r: Option<String>)
    ensures
        opt_view(r) == model_from_words(words(cmd@)),
{
    let parts = split_whitespace(cmd);
    parse_model_from_args(parts.as_slice())
}

// ---------------------------------------------------------------------------
// Endpoints and ports
// ---------------------------------------------------------------------------

/// `s` with its first `n` characters removed.
pub open spec fn after(s: Seq<char>, n: nat) -> Seq<char> {
    s.subrange(n as int, s.len() as int)
}

/// The `(host, port)` a command line sets from position `i` on, starting
/// from `host` / `port`; a later flag overrides an earlier one.
pub open spec fn endpoint_scan(
    ws: Seq<Seq<char>>,
    i: int,
    host: Option<Seq<char>>,
    port: Option<Seq<char>>,
) -> (Option<Seq<char>>, Option<Seq<char>>)
    decreases ws.len() - i,
{
    if i < 0 || i >= ws.len() {
        (host, port)
    } else if ws[i] == "--port"@ && i + 1 < ws.len() {
        endpoint_scan(ws, i + 2, host, Some(ws[i + 1]))
    } else if has_prefix(ws[i], "--port="@) {
        endpoint_scan(ws, i + 1, host, Some(after(ws[i], "--port="@.len())))
    } else if ws[i] == "--host"@ && i + 1 < ws.len() {
        endpoint_scan(ws, i + 2, Some(ws[i + 1]), port)
    } else if has_prefix(ws[i], "--host="@) {
        endpoint_scan(ws, i + 1, Some(after(ws[i], "--host="@.len())), port)
    } else {
        endpoint_scan(ws, i + 1, host, port)
    }
}

/// The endpoint a vLLM command line serves on: `http://<host>:<port>` when
/// it names a port (`0.0.0.0` probed as `localhost`, a missing host
/// `localhost`), otherwise `default_endpoint`.
pub open spec fn endpoint_of(ws: Seq<Seq<char>>, default_endpoint: Seq<char>) -> Seq<char> {
    let (host, port) = endpoint_scan(ws, 0, None, None);
    match port {
        Some(p) => {
            let h = match host {
                Some(h) => if h == "0.0.0.0"@ {
                    "localhost"@
                } else {
                    h
                },
                None => "localhost"@,
            };
            "http://"@ + h + ":"@ + p
        },
        None => default_endpoint,
    }
}

/// `s` without its first `n` characters.
fn drop_chars(s: &str, n: usize) -> (r: String)
    requires
        n <= s@.len(),
    ensures
        r@ == after(s@, n as nat),
{
    let len = to_chars(s).len();
    substring(s, n, len)
}

/// `"http://" + host + ":" + port`.
fn http_url(host: &str, port: &str) -> (r: String)
    ensures
        r@ == "http://"@ + host@ + ":"@ + port@,
{
    let mut r = String::from_str("http://");
    r.append(host);
    r.append(":");
    r.append(port);
    r
}

/// The endpoint a vLLM process serves on, from its `--host` / `--port`
/// arguments; `default_endpoint` when it names no port.
pub fn parse_endpoint_from_args(args: &[String], default_endpoint: &str) -> (r: Option<String>)
    ensures
        r matches Some(e) && e@ == endpoint_of(views(args@), default_endpoint@),
{
    let ghost ws = views(args@);
    let mut host: Option<String> = None;
    let mut port: Option<String> = None;
    let mut i: usize = 0;
    while i < args.len()
        invariant
            ws == views(args@),
            endpoint_scan(ws, 0, None, None) == endpoint_scan(ws, i as int, opt_view(host), opt_view(port)),
        decreases args.len() - i,
    {
        let a = args[i].as_str();
        if str_eq(a, "--port") && i + 1 < args.len() {
            port = Some(args[i + 1].clone());
            i = i + 2;
        } else if str_starts_with(a, "--port=") {
            let n = to_chars("--port=").len();
            port = Some(drop_chars(a, n));
            i = i + 1;
        } else if str_eq(a, "--host") && i + 1 < args.len() {
            host = Some(args[i + 1].clone());
            i = i + 2;
        } else if str_starts_with(a, "--host=") {
            let n = to_chars("--host=").len();
            host = Some(drop_chars(a, n));
            i = i + 1;
        } else {
            i = i + 1;
        }
    }
    let p: String = match port {
        Some(p) => p,
        None => {
            return Some(default_endpoint.to_owned());
        },
    };
    let h: String = match host {
        Some(h) => if str_eq(h.as_str(), "0.0.0.0") {
            String::from_str("localhost")
        } else {
            h
        },
        None => String::from_str("localhost"),
    };
    Some(http_url(h.as_str(), p.as_str()))
}

/// What the word at `i` says about the port: a `--port <n>` or `--port=<n>`
/// whose value parses as a port number.
pub open spec fn port_at(ws: Seq<Seq<char>>, i: int) -> Option<Seq<char>> {
    if ws[i] == "--port"@ {
        if i + 1 < ws.len() && parse_unsigned(ws[i + 1], 65535) is Some {
            Some(ws[i + 1])
        } else {
            None
        }
    } else if has_prefix(ws[i], "--port="@) && parse_unsigned(
        after(ws[i], "--port="@.len()),
        65535,
    ) is Some {
        Some(after(ws[i], "--port="@.len()))
    } else {
        None
    }
}

/// The first port named from position `i` on.
pub open spec fn first_port(ws: Seq<Seq<char>>, i: int) -> Option<Seq<char>>
    decreases ws.len() - i,
{
    if i < 0 || i >= ws.len() {
        None
    } else if port_at(ws, i) is Some {
        port_at(ws, i)
    } else {
        first_port(ws, i + 1)
    }
}

/// Whether `s` parses as a `u16`.
fn is_u16(s: &str) -> (r: bool)
    ensures
        r == parse_unsigned(s@, 65535) is Some,
{
    let c = to_chars(s);
    parse_uint(c.as_slice(), 65535).is_some()
}

/// The `--port` value of a whitespace-separated command, when it is a valid
/// port number.
pub fn parse_port_from_command_str(cmd: &str) -> (r: Option<String>)
    ensures
        opt_view(r) == first_port(words(cmd@), 0),
{
    let parts = split_whitespace(cmd);
    let ghost ws = views(parts@);
    let mut i: usize = 0;
    while i < parts.len()
        invariant
            ws == views(parts@),
            ws == words(cmd@),
            first_port(ws, 0) == first_port(ws, i as int),
        decreases parts.len() - i,
    {
        let a = parts[i].as_str();
        if str_eq(a, "--port") {
            if i + 1 < parts.len() && is_u16(parts[i + 1].as_str()) {
                return Some(parts[i + 1].clone());
            }
        } else if str_starts_with(a, "--port=") {
            let n = to_chars("--port=").len();
            let v = drop_chars(a, n);
            if is_u16(v.as_str()) {
                return Some(v);
            }
        }
        i = i + 1;
    }
    None
}

/// The host PID in the first column of a `docker top` row (`-eo pid,args`);
/// `None` for the header row or a malformed row.
pub fn parse_pid_from_top_row(row: &[String]) -> (r: Option<u32>)
    ensures
        match r {
            Some(pid) => row@.len() > 0 && parse_unsigned(trim(row@[0]@), 0xffff_ffff) == Some(
                pid as nat,
            ),
            None => row@.len() == 0 || parse_unsigned(trim(row@[0]@), 0xffff_ffff) is None,
        },
{
    if row.len() == 0 {
        return None;
    }
    let c = to_chars(row[0].as_str());
    let t = trimmed(c.as_slice());
    match parse_uint(t.as_slice(), 0xffff_ffff) {
        Some(v) => Some(v as u32),
        None => None,
    }
}


// ---------------------------------------------------------------------------
// Process trees
// ---------------------------------------------------------------------------

/// `x` is a root, or descends from one through at most `depth` parent links
/// of `procs` (`(pid, parent)` pairs).
pub open spec fn reach(roots: Seq<u32>, procs: Seq<(u32, Option<u32>)>, x: u32, depth: nat) -> bool
    decreases depth,
{
    if depth == 0 {
        roots.contains(x)
    } else {
        ||| reach(roots, procs, x, (depth - 1) as nat)
        ||| exists|i: int|
            0 <= i < procs.len() && (#[trigger] procs[i]).0 == x && procs[i].1 is Some && reach(
                roots,
                procs,
                procs[i].1->0,
                (depth - 1) as nat,
            )
    }
}

/// `x` is a root or a descendant of one.
pub open spec fn in_tree(roots: Seq<u32>, procs: Seq<(u32, Option<u32>)>, x: u32) -> bool {
    exists|d: nat| reach(roots, procs, x, d)
}

/// Every value that could be part of a tree: the roots and the listed pids.
pub open spec fn pid_candidates(roots: Seq<u32>, procs: Seq<(u32, Option<u32>)>) -> Seq<u32> {
    roots + procs.map_values(|p: (u32, Option<u32>)| p.0)
}

proof fn lemma_closed_contains_tree(
    roots: Seq<u32>,
    procs: Seq<(u32, Option<u32>)>,
    found: Seq<u32>,
    x: u32,
    d: nat,
)
    requires
        forall|y: u32| roots.contains(y) ==> found.contains(y),
        forall|j: int, p: int|
            0 <= j < found.len() && 0 <= p < procs.len() && #[trigger] procs[p].1 == Some(
                #[trigger] found[j],
            ) ==> found.contains(procs[p].0),
        reach(roots, procs, x, d),
    ensures
        found.contains(x),
    decreases d,
{
    if d > 0 {
        if reach(roots, procs, x, (d - 1) as nat) {
            lemma_closed_contains_tree(roots, procs, found, x, (d - 1) as nat);
        } else {
            let i = choose|i: int|
                0 <= i < procs.len() && (#[trigger] procs[i]).0 == x && procs[i].1 is Some && reach(
                    roots,
                    procs,
                    procs[i].1->0,
                    (d - 1) as nat,
                );
            let par = procs[i].1->0;
            lemma_closed_contains_tree(roots, procs, found, par, (d - 1) as nat);
            let j = choose|j: int| 0 <= j < found.len() && found[j] == par;
            assert(procs[i].1 == Some(found[j]));
        }
    }
}

/// Expands root PIDs to the roots and all their descendants, given
/// `(pid, parent_pid)` pairs for every process on the host. Sorted, no PID
/// twice; cycles in the parent data are tolerated.
pub fn expand_pid_tree(roots: &[u32], processes: &[(u32, Option<u32>)]) -> (r: Vec<u32>)
    ensures
        strictly_sorted(r@),
        forall|x: u32| r@.contains(x) <==> in_tree(roots@, processes@, x),
{
    let ghost rs = roots@;
    let ghost ps = processes@;
    let ghost cands = pid_candidates(rs, ps);
    let mut found: Vec<u32> = Vec::new();
    let mut k: usize = 0;
    while k < roots.len()
        invariant
            rs == roots@,
            ps == processes@,
            cands == pid_candidates(rs, ps),
            k <= rs.len(),
            found@.no_duplicates(),
            forall|j: int| 0 <= j < found@.len() ==> in_tree(rs, ps, #[trigger] found@[j]),
            forall|j: int| 0 <= j < found@.len() ==> cands.contains(#[trigger] found@[j]),
            forall|j: int| 0 <= j < k ==> found@.contains(#[trigger] rs[j]),
        decreases roots.len() - k,
    {
        let x = roots[k];
        if !vec_contains(&found, x) {
            proof {
                assert(reach(rs, ps, x, 0));
                assert(cands[k as int] == x);
            }
            let ghost before = found@;
            found.push(x);
            proof {
                assert forall|j: int| 0 <= j < k + 1 implies found@.contains(#[trigger] rs[j]) by {
                    if j < k {
                        assert(before.contains(rs[j]));
                        let w = choose|w: int| 0 <= w < before.len() && before[w] == rs[j];
                        assert(found@[w] == rs[j]);
                    } else {
                        assert(found@[found@.len() - 1] == rs[j]);
                    }
                }
            }
        } else {
            proof {
                assert forall|j: int| 0 <= j < k + 1 implies found@.contains(#[trigger] rs[j]) by {}
            }
        }
        k = k + 1;
    }
    proof {
        lemma_unique_within(found@, cands);
        assert forall|y: u32| rs.contains(y) implies found@.contains(y) by {
            let j = choose|j: int| 0 <= j < rs.len() && rs[j] == y;
            assert(found@.contains(rs[j]));
        }
    }
    let mut i: usize = 0;
    while i < found.len()
        invariant
            ps == processes@,
            cands == pid_candidates(rs, ps),
            i <= found@.len(),
            found@.len() <= cands.len(),
            found@.no_duplicates(),
            forall|j: int| 0 <= j < found@.len() ==> in_tree(rs, ps, #[trigger] found@[j]),
            forall|j: int| 0 <= j < found@.len() ==> cands.contains(#[trigger] found@[j]),
            forall|y: u32| rs.contains(y) ==> found@.contains(y),
            forall|j: int, p: int|
                0 <= j < i && 0 <= p < ps.len() && #[trigger] ps[p].1 == Some(#[trigger] found@[j])
                    ==> found@.contains(ps[p].0),
        decreases cands.len() - i,
    {
        let pid = found[i];
        let mut p: usize = 0;
        while p < processes.len()
            invariant
                ps == processes@,
                cands == pid_candidates(rs, ps),
                i < found@.len(),
                found@[i as int] == pid,
                p <= ps.len(),
                found@.len() <= cands.len(),
                found@.no_duplicates(),
                forall|j: int| 0 <= j < found@.len() ==> in_tree(rs, ps, #[trigger] found@[j]),
                forall|j: int| 0 <= j < found@.len() ==> cands.contains(#[trigger] found@[j]),
                forall|y: u32| rs.contains(y) ==> found@.contains(y),
                forall|j: int, q: int|
                    0 <= j < i && 0 <= q < ps.len() && #[trigger] ps[q].1 == Some(
                        #[trigger] found@[j],
                    ) ==> found@.contains(ps[q].0),
                forall|q: int| 0 <= q < p && #[trigger] ps[q].1 == Some(pid) ==> found@.contains(ps[q].0),
            decreases processes.len() - p,
        {
            let (child, parent) = processes[p];
            let is_child = match parent {
                Some(pp) => pp == pid,
                None => false,
            };
            if is_child && !vec_contains(&found, child) {
                let ghost before = found@;
                proof {
                    let d = choose|d: nat| reach(rs, ps, pid, d);
                    assert(ps[p as int].0 == child);
                    assert(reach(rs, ps, child, d + 1));
                    assert(cands[rs.len() + p] == child);
                }
                found.push(child);
                proof {
                    assert forall|y: u32| before.contains(y) implies found@.contains(y) by {
                        let w = choose|w: int| 0 <= w < before.len() && before[w] == y;
                        assert(found@[w] == y);
                    }
                    assert(found@[found@.len() - 1] == child);
                    lemma_unique_within(found@, cands);
                }
            }
            p = p + 1;
        }
        i = i + 1;
    }
    proof {
        assert forall|x: u32| in_tree(rs, ps, x) implies found@.contains(x) by {
            let d = choose|d: nat| reach(rs, ps, x, d);
            lemma_closed_contains_tree(rs, ps, found@, x, d);
        }
    }
    let sorted = sort_u32(&found);
    proof {
        lemma_same_multiset_same_values(found@, sorted@);
        lemma_same_multiset_no_duplicates(found@, sorted@);
        lemma_sorted_unique_is_strict(sorted@);
    }
    sorted
}

// ---------------------------------------------------------------------------
// Folding the Docker scan into the process scan
// ---------------------------------------------------------------------------

/// `a`, then each value of `b` that is not already there, in order.
pub open spec fn pid_union(a: Seq<u32>, b: Seq<u32>) -> Seq<u32>
    decreases b.len(),
{
    if b.len() == 0 {
        a
    } else {
        let u = pid_union(a, b.drop_last());
        if u.contains(b.last()) {
            u
        } else {
            u.push(b.last())
        }
    }
}

/// The first candidate with the given engine type and endpoint, from `i` on.
pub open spec fn first_match_from(
    cands: Seq<CandidateView>,
    t: EngineType,
    endpoint: Seq<char>,
    i: int,
) -> Option<int>
    decreases cands.len() - i,
{
    if i < 0 || i >= cands.len() {
        None
    } else if cands[i].engine_type == t && cands[i].endpoint == endpoint {
        Some(i)
    } else {
        first_match_from(cands, t, endpoint, i + 1)
    }
}

/// An existing candidate after a Docker candidate for the same engine was
/// folded into it: Docker's deployment mode wins, a missing model hint or
/// container id is filled in, and the PID sets are united and sorted.
pub open spec fn merged_candidate(c: CandidateView, dc: CandidateView) -> CandidateView {
    CandidateView {
        deployment_mode: dc.deployment_mode,
        served_model: if c.served_model is None && dc.served_model is Some {
            dc.served_model
        } else {
            c.served_model
        },
        pids: sorted_values(pid_union(c.pids, dc.pids)),
        container_id: if c.container_id is None && dc.container_id is Some {
            dc.container_id
        } else {
            c.container_id
        },
        ..c
    }
}

/// The candidate list after one Docker candidate: merged into the first
/// candidate with the same engine type and endpoint, appended otherwise.
pub open spec fn merge_one(cands: Seq<CandidateView>, dc: CandidateView) -> Seq<CandidateView> {
    match first_match_from(cands, dc.engine_type, dc.endpoint, 0) {
        Some(i) => cands.update(i, merged_candidate(cands[i], dc)),
        None => cands.push(dc),
    }
}

/// The candidate list after the Docker candidates, in order.
pub open spec fn merge_all(cands: Seq<CandidateView>, docker: Seq<CandidateView>) -> Seq<
    CandidateView,
>
    decreases docker.len(),
{
    if docker.len() == 0 {
        cands
    } else {
        merge_one(merge_all(cands, docker.drop_last()), docker.last())
    }
}

fn clone_opt_string(o: &Option<String>) -> (r: Option<String>)
    ensures
        opt_view(r) == opt_view(*o),
{
    match o {
        Some(s) => Some(s.clone()),
        None => None,
    }
}

fn copy_pids(v: &Vec<u32>) -> (r: Vec<u32>)
    ensures
        r@ == v@,
{
    let mut r: Vec<u32> = Vec::new();
    let mut i: usize = 0;
    while i < v.len()
        invariant
            i <= v@.len(),
            r@ == v@.take(i as int),
        decreases v.len() - i,
    {
        r.push(v[i]);
        assert(r@ =~= v@.take(i + 1));
        i = i + 1;
    }
    assert(v@.take(v@.len() as int) =~= v@);
    r
}

/// `a` with the values of `b` it lacks appended, in order.
fn union_pids(a: &Vec<u32>, b: &Vec<u32>) -> (r: Vec<u32>)
    ensures
        r@ == pid_union(a@, b@),
{
    let mut r = copy_pids(a);
    let mut i: usize = 0;
    assert(b@.take(0) =~= Seq::<u32>::empty());
    while i < b.len()
        invariant
            i <= b@.len(),
            r@ == pid_union(a@, b@.take(i as int)),
        decreases b.len() - i,
    {
        let pid = b[i];
        assert(b@.take(i + 1).drop_last() =~= b@.take(i as int));
        if !vec_contains(&r, pid) {
            r.push(pid);
        }
        i = i + 1;
    }
    assert(b@.take(b@.len() as int) =~= b@);
    r
}

fn find_candidate(cands: &Vec<DetectedEngine>, t: EngineType, endpoint: &str) -> (r: Option<usize>)
    ensures
        match r {
            Some(i) => first_match_from(candidate_views(cands@), t, endpoint@, 0) == Some(i as int)
                && i < cands@.len(),
            None => first_match_from(candidate_views(cands@), t, endpoint@, 0) is None,
        },
{
    let ghost cs = candidate_views(cands@);
    let mut i: usize = 0;
    while i < cands.len()
        invariant
            cs == candidate_views(cands@),
            i <= cands@.len(),
            first_match_from(cs, t, endpoint@, 0) == first_match_from(cs, t, endpoint@, i as int),
        decreases cands.len() - i,
    {
        if cands[i].engine_type == t && str_eq(cands[i].endpoint.as_str(), endpoint) {
            return Some(i);
        }
        i = i + 1;
    }
    None
}

fn merged_with(c: &DetectedEngine, dc: &DetectedEngine) -> (r: DetectedEngine)
    ensures
        r@ == merged_candidate(c@, dc@),
{
    let served_model = if c.served_model.is_none() && dc.served_model.is_some() {
        clone_opt_string(&dc.served_model)
    } else {
        clone_opt_string(&c.served_model)
    };
    let container_id = if c.container_id.is_none() && dc.container_id.is_some() {
        clone_opt_string(&dc.container_id)
    } else {
        clone_opt_string(&c.container_id)
    };
    let united = union_pids(&c.pids, &dc.pids);
    let pids = sort_u32(&united);
    DetectedEngine {
        engine_type: c.engine_type,
        endpoint: c.endpoint.clone(),
        deployment_mode: dc.deployment_mode,
        served_model,
        pids,
        container_id,
    }
}

/// Merges the Docker scan's candidates into the process scan's, keyed by
/// engine type and endpoint: a Docker candidate for an engine already found
/// upgrades it to Docker, fills in a missing model hint and container id,
/// and unites the PID sets (sorted); any other is appended.
pub fn merge_docker_candidates(
    candidates: &mut Vec<DetectedEngine>,
    docker_candidates: Vec<DetectedEngine>,
)
    ensures
        candidate_views(final(candidates)@) == merge_all(
            candidate_views(old(candidates)@),
            candidate_views(docker_candidates@),
        ),
{
    let ghost c0 = candidate_views(candidates@);
    let ghost ds = candidate_views(docker_candidates@);
    let ghost dv = docker_candidates@;
    assert(ds.take(0) =~= Seq::<CandidateView>::empty());
    for dc in it: docker_candidates
        invariant
            it.seq() == dv,
            ds == candidate_views(dv),
            candidate_views(candidates@) == merge_all(c0, ds.take(it.index() as int)),
    {
        let ghost k = it.index() as int;
        let ghost before = candidate_views(candidates@);
        proof {
            assert(ds.take(k + 1).drop_last() =~= ds.take(k));
            assert(ds.take(k + 1).last() == dc@);
        }
        match find_candidate(candidates, dc.engine_type, dc.endpoint.as_str()) {
            Some(i) => {
                let merged = merged_with(&candidates[i], &dc);
                candidates.set(i, merged);
                assert(candidate_views(candidates@) =~= before.update(
                    i as int,
                    merged_candidate(before[i as int], dc@),
                ));
            },
            None => {
                candidates.push(dc);
                assert(candidate_views(candidates@) =~= before.push(dc@));
            },
        }
    }
    assert(ds.take(ds.len() as int) =~= ds);
}

/// Some candidate of `s` is the engine of type `t` at `endpoint`.
pub open spec fn has_engine(s: Seq<CandidateView>, t: EngineType, endpoint: Seq<char>) -> bool {
    exists|j: int| 0 <= j < s.len() && (#[trigger] s[j]).engine_type == t && s[j].endpoint == endpoint
}

proof fn lemma_first_match(cands: Seq<CandidateView>, t: EngineType, endpoint: Seq<char>, i: int)
    requires
        0 <= i,
    ensures
        match first_match_from(cands, t, endpoint, i) {
            Some(k) => i <= k < cands.len() && cands[k].engine_type == t && cands[k].endpoint
                == endpoint,
            None => forall|j: int|
                i <= j < cands.len() ==> !((#[trigger] cands[j]).engine_type == t && cands[j].endpoint
                    == endpoint),
        },
    decreases cands.len() - i,
{
    if i < cands.len() {
        lemma_first_match(cands, t, endpoint, i + 1);
    }
}

proof fn lemma_merge_one_engines(cands: Seq<CandidateView>, dc: CandidateView)
    ensures
        forall|t: EngineType, e: Seq<char>|
            has_engine(merge_one(cands, dc), t, e) <==> (has_engine(cands, t, e) || (t
                == dc.engine_type && e == dc.endpoint)),
{
    lemma_first_match(cands, dc.engine_type, dc.endpoint, 0);
    let r = merge_one(cands, dc);
    assert forall|t: EngineType, e: Seq<char>|
        has_engine(r, t, e) <==> (has_engine(cands, t, e) || (t == dc.engine_type && e
            == dc.endpoint)) by {
        match first_match_from(cands, dc.engine_type, dc.endpoint, 0) {
            Some(i) => {
                assert(r.len() == cands.len());
                assert forall|j: int| 0 <= j < r.len() implies (#[trigger] r[j]).engine_type
                    == cands[j].engine_type && r[j].endpoint == cands[j].endpoint by {}
                if t == dc.engine_type && e == dc.endpoint {
                    assert(cands[i].engine_type == t && cands[i].endpoint == e);
                }
                if has_engine(r, t, e) {
                    let j = choose|j: int|
                        0 <= j < r.len() && (#[trigger] r[j]).engine_type == t && r[j].endpoint == e;
                    assert(cands[j].engine_type == t && cands[j].endpoint == e);
                }
                if has_engine(cands, t, e) {
                    let j = choose|j: int|
                        0 <= j < cands.len() && (#[trigger] cands[j]).engine_type == t
                            && cands[j].endpoint == e;
                    assert(r[j].engine_type == t && r[j].endpoint == e);
                }
            },
            None => {
                assert(r == cands.push(dc));
                if has_engine(cands, t, e) {
                    let j = choose|j: int|
                        0 <= j < cands.len() && (#[trigger] cands[j]).engine_type == t
                            && cands[j].endpoint == e;
                    assert(r[j] == cands[j]);
                }
                if t == dc.engine_type && e == dc.endpoint {
                    assert(r[cands.len() as int] == dc);
                }
                if has_engine(r, t, e) {
                    let j = choose|j: int|
                        0 <= j < r.len() && (#[trigger] r[j]).engine_type == t && r[j].endpoint == e;
                    if j < cands.len() {
                        assert(cands[j] == r[j]);
                    }
                }
            },
        }
    }
}

/// Merging keeps every engine apart: the merged list has a candidate for an
/// engine type and endpoint exactly when the process scan or the Docker scan
/// found one, so instances on different ports stay distinct entries and no
/// engine is lost or invented.
pub proof fn law_merge_keeps_every_engine(
    cands: Seq<CandidateView>,
    docker: Seq<CandidateView>,
    t: EngineType,
    endpoint: Seq<char>,
)
    ensures
        has_engine(merge_all(cands, docker), t, endpoint) <==> (has_engine(cands, t, endpoint)
            || has_engine(docker, t, endpoint)),
    decreases docker.len(),
{
    if docker.len() > 0 {
        let rest = docker.drop_last();
        let dc = docker.last();
        law_merge_keeps_every_engine(cands, rest, t, endpoint);
        lemma_merge_one_engines(merge_all(cands, rest), dc);
        if has_engine(docker, t, endpoint) {
            let j = choose|j: int|
                0 <= j < docker.len() && (#[trigger] docker[j]).engine_type == t && docker[j].endpoint
                    == endpoint;
            if j < rest.len() {
                assert(rest[j] == docker[j]);
            }
        }
        if has_engine(rest, t, endpoint) {
            let j = choose|j: int|
                0 <= j < rest.len() && (#[trigger] rest[j]).engine_type == t && rest[j].endpoint
                    == endpoint;
            assert(docker[j] == rest[j]);
        }
        if t == dc.engine_type && endpoint == dc.endpoint {
            assert(docker[docker.len() - 1] == dc);
        }
    }
}

proof fn lemma_pid_union_contains(a: Seq<u32>, b: Seq<u32>)
    ensures
        forall|x: u32| pid_union(a, b).contains(x) <==> (a.contains(x) || b.contains(x)),
    decreases b.len(),
{
    if b.len() > 0 {
        let rest = b.drop_last();
        lemma_pid_union_contains(a, rest);
        let u = pid_union(a, rest);
        assert forall|x: u32| pid_union(a, b).contains(x) <==> (a.contains(x) || b.contains(x)) by {
            if b.contains(x) && !rest.contains(x) {
                let j = choose|j: int| 0 <= j < b.len() && b[j] == x;
                if j < rest.len() {
                    assert(rest[j] == x);
                }
            }
            if rest.contains(x) {
                let j = choose|j: int| 0 <= j < rest.len() && rest[j] == x;
                assert(b[j] == x);
            }
            if !u.contains(b.last()) {
                let v = u.push(b.last());
                if u.contains(x) {
                    let j = choose|j: int| 0 <= j < u.len() && u[j] == x;
                    assert(v[j] == x);
                }
                if x == b.last() {
                    assert(v[u.len() as int] == x);
                }
                if v.contains(x) {
                    let j = choose|j: int| 0 <= j < v.len() && v[j] == x;
                    if j < u.len() {
                        assert(u[j] == x);
                    }
                }
            }
            if x == b.last() {
                assert(b[b.len() - 1] == x);
            }
        }
    }
}

/// A merged engine runs the processes either scan saw: its PID list is in
/// order and holds exactly the PIDs of the two candidates.
pub proof fn law_merged_pids_are_the_union(c: CandidateView, dc: CandidateView)
    ensures
        sorted_le(merged_candidate(c, dc).pids),
        forall|x: u32|
            merged_candidate(c, dc).pids.contains(x) <==> (c.pids.contains(x) || dc.pids.contains(
                x,
            )),
        merged_candidate(c, dc).deployment_mode == dc.deployment_mode,
        merged_candidate(c, dc).engine_type == c.engine_type,
        merged_candidate(c, dc).endpoint == c.endpoint,
{
    let u = pid_union(c.pids, dc.pids);
    lemma_pid_union_contains(c.pids, dc.pids);
    u.lemma_sort_by_ensures(u32_le());
    assert(total_ordering(u32_le()));
    lemma_same_multiset_same_values(u, sorted_values(u));
    assert forall|a: int, b: int| 0 <= a < b < sorted_values(u).len() implies sorted_values(
        u,
    )[a] <= sorted_values(u)[b] by {
        assert(u32_le()(sorted_values(u)[a], sorted_values(u)[b]));
    }
}

// ---------------------------------------------------------------------------
// Recognizing vLLM and choosing endpoints
// ---------------------------------------------------------------------------

/// A command line runs a vLLM server: one of its words is a vLLM
/// entrypoint.
pub open spec fn vllm_command(command: Seq<char>) -> bool {
    exists|i: int| 0 <= i < words(command).len() && is_vllm_arg(#[trigger] words(command)[i])
}

/// Whether a process command line is a vLLM server rather than something
/// that merely mentions it: judged by the entrypoint being run, the same
/// evidence the process scan uses.
pub fn is_vllm_process(command: &str) -> (r: bool)
    ensures
        r == vllm_command(command@),
{
    let parts = split_whitespace(command);
    let ghost ws = views(parts@);
    let mut i: usize = 0;
    while i < parts.len()
        invariant
            ws == views(parts@),
            ws == words(command@),
            i <= ws.len(),
            forall|j: int| 0 <= j < i ==> !is_vllm_arg(#[trigger] ws[j]),
        decreases parts.len() - i,
    {
        if is_vllm_entry(parts[i].as_str()) {
            assert(is_vllm_arg(ws[i as int]));
            return true;
        }
        i = i + 1;
    }
    false
}

/// The endpoint a container's vLLM is probed on: the port detection found,
/// or vLLM's default port when none was readable.
pub open spec fn docker_endpoint_of(port: Option<Seq<char>>) -> Seq<char> {
    match port {
        Some(p) => "http://localhost:"@ + p,
        None => "http://localhost:8000"@,
    }
}

/// The endpoint to probe a container's vLLM on, and whether the port had to
/// be assumed (vLLM's default, 8000). Assuming is safe: the health probe
/// rejects a wrong guess, while dropping the container would hide it.
pub fn docker_endpoint(port: Option<&str>) -> (r: (String, bool))
    ensures
        r.0@ == docker_endpoint_of(opt_str(port)),
        r.1 == (port is None),
{
    match port {
        Some(p) => {
            let mut e = String::from_str("http://localhost:");
            e.append(p);
            (e, false)
        },
        None => (String::from_str("http://localhost:8000"), true),
    }
}

/// Reading raw `/proc/<pid>/cmdline` bytes left to right: the arguments
/// completed so far and the one in progress.
pub open spec fn nul_state(raw: Seq<u8>) -> (Seq<Seq<u8>>, Seq<u8>)
    decreases raw.len(),
{
    if raw.len() == 0 {
        (Seq::empty(), Seq::empty())
    } else {
        let (done, cur) = nul_state(raw.drop_last());
        if raw.last() == 0 {
            if cur.len() > 0 {
                (done.push(cur), Seq::empty())
            } else {
                (done, Seq::empty())
            }
        } else {
            (done, cur.push(raw.last()))
        }
    }
}

/// The NUL-separated, non-empty arguments of a raw command line.
pub open spec fn nul_fields(raw: Seq<u8>) -> Seq<Seq<u8>> {
    let (done, cur) = nul_state(raw);
    if cur.len() > 0 {
        done.push(cur)
    } else {
        done
    }
}

/// Each argument decoded as (lossy) UTF-8.
pub open spec fn decoded_fields(fields: Seq<Seq<u8>>) -> Seq<Seq<char>> {
    fields.map_values(|f: Seq<u8>| utf8_lossy(f))
}

/// Splits raw `/proc/<pid>/cmdline` bytes (NUL-separated) into arguments,
/// dropping empty ones; each is decoded as lossy UTF-8.
pub fn cmdline_bytes_to_args(raw: &[u8]) -> (r: Vec<String>)
    ensures
        views(r@) == decoded_fields(nul_fields(raw@)),
{
    let mut out: Vec<String> = Vec::new();
    let mut cur: Vec<u8> = Vec::new();
    let ghost mut done: Seq<Seq<u8>> = Seq::empty();
    let mut i: usize = 0;
    assert(raw@.take(0) =~= Seq::<u8>::empty());
    while i < raw.len()
        invariant
            i <= raw@.len(),
            nul_state(raw@.take(i as int)) == (done, cur@),
            views(out@) == decoded_fields(done),
        decreases raw.len() - i,
    {
        let b = raw[i];
        assert(raw@.take(i + 1).drop_last() =~= raw@.take(i as int));
        assert(raw@.take(i + 1).last() == b);
        if b == 0 {
            if cur.len() > 0 {
                let arg = decode_utf8_lossy(cur.as_slice());
                let ghost before = out@;
                let ghost old_done = done;
                out.push(arg);
                proof {
                    done = done.push(cur@);
                    assert(views(out@) =~= views(before).push(arg@));
                    assert(decoded_fields(done) =~= decoded_fields(old_done).push(utf8_lossy(cur@)));
                }
            }
            cur = Vec::new();
        } else {
            cur.push(b);
        }
        i = i + 1;
    }
    assert(raw@.take(raw@.len() as int) =~= raw@);
    if cur.len() > 0 {
        let arg = decode_utf8_lossy(cur.as_slice());
        let ghost before = out@;
        out.push(arg);
        assert(views(out@) =~= views(before).push(arg@));
        assert(decoded_fields(done.push(cur@)) =~= decoded_fields(done).push(utf8_lossy(cur@)));
    }
    out
}

// ---------------------------------------------------------------------------
// Layer 1: the process scan
// ---------------------------------------------------------------------------

/// A host process as the process scan reads it.
#[derive(Clone, Debug)]
pub struct ProcessRecord {
    pub pid: u32,
    pub parent: Option<u32>,
    pub name: String,
    pub cmd: Vec<String>,
}

/// The process's name contains `vllm`.
pub open spec fn name_is_vllm(p: ProcessRecord) -> bool {
    has_infix(p.name@, "vllm"@)
}

/// One of the process's arguments is a vLLM entrypoint.
pub open spec fn cmd_is_vllm(p: ProcessRecord) -> bool {
    exists|i: int| 0 <= i < p.cmd@.len() && is_vllm_arg(#[trigger] p.cmd@[i]@)
}

/// Some process's name contains `vllm`.
pub open spec fn any_name_is_vllm(procs: Seq<ProcessRecord>) -> bool {
    exists|i: int| 0 <= i < procs.len() && name_is_vllm(#[trigger] procs[i])
}

/// A process is taken as vLLM: by its name, or — when no process is named
/// like vLLM — by a vLLM entrypoint among its arguments.
pub open spec fn vllm_selected(procs: Seq<ProcessRecord>, p: ProcessRecord) -> bool {
    if any_name_is_vllm(procs) {
        name_is_vllm(p)
    } else {
        cmd_is_vllm(p)
    }
}

fn name_matches(p: &ProcessRecord) -> (r: bool)
    ensures
        r == name_is_vllm(*p),
{
    let n = to_chars(p.name.as_str());
    let pat = to_chars("vllm");
    contains(n.as_slice(), pat.as_slice())
}

fn cmd_matches(p: &ProcessRecord) -> (r: bool)
    ensures
        r == cmd_is_vllm(*p),
{
    let mut i: usize = 0;
    while i < p.cmd.len()
        invariant
            i <= p.cmd@.len(),
            forall|j: int| 0 <= j < i ==> !is_vllm_arg(#[trigger] p.cmd@[j]@),
        decreases p.cmd.len() - i,
    {
        if is_vllm_entry(p.cmd[i].as_str()) {
            return true;
        }
        i = i + 1;
    }
    false
}

/// The indices, in order, of the processes taken as vLLM: those whose name
/// contains `vllm`, or, when there is none, those running a vLLM entrypoint
/// (`python3 /usr/local/bin/vllm serve …`, `python -m vllm.entrypoints…`).
pub fn select_vllm_processes(procs: &[ProcessRecord]) -> (r: Vec<usize>)
    ensures
        forall|a: int, b: int| 0 <= a < b < r@.len() ==> r@[a] < r@[b],
        forall|k: int| 0 <= k < r@.len() ==> r@[k] < procs@.len(),
        forall|i: int|
            0 <= i < procs@.len() ==> (r@.contains(i as usize) <==> vllm_selected(
                procs@,
                #[trigger] procs@[i],
            )),
{
    let mut by_name: Vec<usize> = Vec::new();
    let mut i: usize = 0;
    while i < procs.len()
        invariant
            i <= procs@.len(),
            forall|a: int, b: int| 0 <= a < b < by_name@.len() ==> by_name@[a] < by_name@[b],
            forall|k: int| 0 <= k < by_name@.len() ==> by_name@[k] < i,
            forall|j: int| 0 <= j < i ==> (by_name@.contains(j as usize) <==> name_is_vllm(#[trigger] procs@[j])),
        decreases procs.len() - i,
    {
        let ghost before = by_name@;
        let m = name_matches(&procs[i]);
        if m {
            by_name.push(i);
        }
        proof {
            assert forall|j: int| 0 <= j < i + 1 implies (by_name@.contains(j as usize) <==> name_is_vllm(#[trigger] procs@[j])) by {
                if before.contains(j as usize) {
                    let k = choose|k: int| 0 <= k < before.len() && before[k] == j as usize;
                    assert(by_name@[k] == j as usize);
                }
                if by_name@.contains(j as usize) {
                    let k = choose|k: int| 0 <= k < by_name@.len() && by_name@[k] == j as usize;
                    if k < before.len() {
                        assert(before[k] == j as usize);
                    }
                }
                if j == i && m {
                    assert(by_name@[by_name@.len() - 1] == j as usize);
                }
            }
        }
        i = i + 1;
    }
    if by_name.len() > 0 {
        proof {
            let k = by_name@[0];
            assert(by_name@.contains(k));
            assert(name_is_vllm(procs@[k as int]));
        }
        return by_name;
    }
    proof {
        assert forall|j: int| 0 <= j < procs@.len() implies !name_is_vllm(#[trigger] procs@[j]) by {
            if name_is_vllm(procs@[j]) {
                assert(by_name@.contains(j as usize));
            }
        }
    }
    let mut by_cmd: Vec<usize> = Vec::new();
    let mut i: usize = 0;
    while i < procs.len()
        invariant
            i <= procs@.len(),
            !any_name_is_vllm(procs@),
            forall|a: int, b: int| 0 <= a < b < by_cmd@.len() ==> by_cmd@[a] < by_cmd@[b],
            forall|k: int| 0 <= k < by_cmd@.len() ==> by_cmd@[k] < i,
            forall|j: int| 0 <= j < i ==> (by_cmd@.contains(j as usize) <==> cmd_is_vllm(#[trigger] procs@[j])),
        decreases procs.len() - i,
    {
        let ghost before = by_cmd@;
        let m = cmd_matches(&procs[i]);
        if m {
            by_cmd.push(i);
        }
        proof {
            assert forall|j: int| 0 <= j < i + 1 implies (by_cmd@.contains(j as usize) <==> cmd_is_vllm(#[trigger] procs@[j])) by {
                if before.contains(j as usize) {
                    let k = choose|k: int| 0 <= k < before.len() && before[k] == j as usize;
                    assert(by_cmd@[k] == j as usize);
                }
                if by_cmd@.contains(j as usize) {
                    let k = choose|k: int| 0 <= k < by_cmd@.len() && by_cmd@[k] == j as usize;
                    if k < before.len() {
                        assert(before[k] == j as usize);
                    }
                }
                if j == i && m {
                    assert(by_cmd@[by_cmd@.len() - 1] == j as usize);
                }
            }
        }
        i = i + 1;
    }
    by_cmd
}

/// The vLLM endpoint a native process serves on when it names none.
pub open spec fn native_default_endpoint() -> Seq<char> {
    "http://localhost:8000"@
}

/// The native candidates for the vLLM processes found, in order, before
/// their PID trees are expanded: one per distinct endpoint, holding the
/// PIDs of every process serving it; a process without a command line is
/// skipped.
pub open spec fn native_group(found: Seq<(u32, Vec<String>)>) -> Seq<CandidateView>
    decreases found.len(),
{
    if found.len() == 0 {
        Seq::empty()
    } else {
        let g = native_group(found.drop_last());
        let pid = found.last().0;
        let ws = views(found.last().1@);
        if ws.len() == 0 {
            g
        } else {
            let ep = endpoint_of(ws, native_default_endpoint());
            match first_match_from(g, EngineType::Vllm, ep, 0) {
                Some(i) => g.update(i, CandidateView { pids: g[i].pids.push(pid), ..g[i] }),
                None => g.push(
                    CandidateView {
                        engine_type: EngineType::Vllm,
                        endpoint: ep,
                        deployment_mode: DeploymentMode::Native,
                        served_model: model_from_words(ws),
                        pids: seq![pid],
                        container_id: None,
                    },
                ),
            }
        }
    }
}

fn with_pid(d: &DetectedEngine, pid: u32) -> (r: DetectedEngine)
    ensures
        r@ == (CandidateView { pids: d@.pids.push(pid), ..d@ }),
{
    let mut pids = copy_pids(&d.pids);
    pids.push(pid);
    DetectedEngine {
        engine_type: d.engine_type,
        endpoint: d.endpoint.clone(),
        deployment_mode: d.deployment_mode,
        served_model: clone_opt_string(&d.served_model),
        pids,
        container_id: clone_opt_string(&d.container_id),
    }
}

fn with_pids(d: &DetectedEngine, pids: Vec<u32>) -> (r: DetectedEngine)
    ensures
        r@ == (CandidateView { pids: pids@, ..d@ }),
{
    DetectedEngine {
        engine_type: d.engine_type,
        endpoint: d.endpoint.clone(),
        deployment_mode: d.deployment_mode,
        served_model: clone_opt_string(&d.served_model),
        pids,
        container_id: clone_opt_string(&d.container_id),
    }
}

/// The native candidates for the vLLM processes found — each `(pid, command
/// line)` — one per distinct endpoint, each with its processes and all
/// their descendants (the worker processes that hold the GPU context),
/// given `(pid, parent)` pairs for every process on the host.
pub fn native_candidates(found: &[(u32, Vec<String>)], processes: &[(u32, Option<u32>)]) -> (r: Vec<
    DetectedEngine,
>)
    ensures
        r@.len() == native_group(found@).len(),
        forall|i: int|
            0 <= i < r@.len() ==> {
                let g = native_group(found@)[i];
                let d = (#[trigger] r@[i])@;
                &&& (CandidateView { pids: g.pids, ..d }) == g
                &&& strictly_sorted(d.pids)
                &&& forall|x: u32| d.pids.contains(x) <==> in_tree(g.pids, processes@, x)
            },
{
    let ghost fs = found@;
    let mut detected: Vec<DetectedEngine> = Vec::new();
    let mut k: usize = 0;
    assert(fs.take(0) =~= Seq::<(u32, Vec<String>)>::empty());
    while k < found.len()
        invariant
            fs == found@,
            k <= fs.len(),
            candidate_views(detected@) == native_group(fs.take(k as int)),
        decreases found.len() - k,
    {
        assert(fs.take(k + 1).drop_last() =~= fs.take(k as int));
        assert(fs.take(k + 1).last() == fs[k as int]);
        let pid = found[k].0;
        let cmd = &found[k].1;
        if cmd.len() > 0 {
            let ghost before = candidate_views(detected@);
            let endpoint = match parse_endpoint_from_args(cmd.as_slice(), "http://localhost:8000") {
                Some(e) => e,
                None => String::from_str("http://localhost:8000"),
            };
            match find_candidate(&detected, EngineType::Vllm, endpoint.as_str()) {
                Some(slot) => {
                    let updated = with_pid(&detected[slot], pid);
                    detected.set(slot, updated);
                    assert(candidate_views(detected@) =~= before.update(
                        slot as int,
                        CandidateView { pids: before[slot as int].pids.push(pid), ..before[slot as int] },
                    ));
                },
                None => {
                    let served_model = parse_model_from_args(cmd.as_slice());
                    let mut pids: Vec<u32> = Vec::new();
                    pids.push(pid);
                    let d = DetectedEngine {
                        engine_type: EngineType::Vllm,
                        endpoint,
                        deployment_mode: DeploymentMode::Native,
                        served_model,
                        pids,
                        container_id: None,
                    };
                    detected.push(d);
                    assert(candidate_views(detected@) =~= before.push(d@));
                },
            }
        }
        k = k + 1;
    }
    assert(fs.take(fs.len() as int) =~= fs);
    let ghost g = candidate_views(detected@);
    let mut i: usize = 0;
    while i < detected.len()
        invariant
            g == native_group(found@),
            detected@.len() == g.len(),
            i <= g.len(),
            forall|j: int| i <= j < g.len() ==> (#[trigger] detected@[j])@ == g[j],
            forall|j: int|
                0 <= j < i ==> {
                    let d = (#[trigger] detected@[j])@;
                    &&& (CandidateView { pids: g[j].pids, ..d }) == g[j]
                    &&& strictly_sorted(d.pids)
                    &&& forall|x: u32| d.pids.contains(x) <==> in_tree(g[j].pids, processes@, x)
                },
        decreases detected.len() - i,
    {
        let tree = expand_pid_tree(detected[i].pids.as_slice(), processes);
        let updated = with_pids(&detected[i], tree);
        detected.set(i, updated);
        i = i + 1;
    }
    detected
}

// ---------------------------------------------------------------------------
// Layer 2: the Docker scan
// ---------------------------------------------------------------------------

/// A running container as the Docker scan reads it.
#[derive(Clone, Debug)]
pub struct ContainerRecord {
    pub id: Option<String>,
    pub image: Option<String>,
    /// The container's entrypoint command, as one string.
    pub command: Option<String>,
    pub names: Vec<String>,
    /// The public port of each of the container's port bindings.
    pub public_ports: Vec<Option<u16>>,
}

/// An optional string's text, empty when absent.
pub open spec fn text_or_empty(o: Option<String>) -> Seq<char> {
    match o {
        Some(s) => s@,
        None => Seq::empty(),
    }
}

/// `s` mentions vLLM in any letter case.
pub open spec fn mentions_vllm(s: Seq<char>) -> bool {
    has_infix(lowercase(s), "vllm"@)
}

/// The image or the entrypoint says vLLM: trustworthy on its own.
pub open spec fn image_or_command_vllm(c: ContainerRecord) -> bool {
    mentions_vllm(text_or_empty(c.image)) || mentions_vllm(text_or_empty(c.command))
}

/// A name says vLLM: names are operator-chosen, so this only makes the
/// container a candidate that still has to show a vLLM process.
pub open spec fn named_vllm(c: ContainerRecord) -> bool {
    exists|i: int| 0 <= i < c.names@.len() && mentions_vllm(#[trigger] c.names@[i]@)
}

/// The first published port of a container's bindings.
pub open spec fn first_public_port(ports: Seq<Option<u16>>) -> Option<u16>
    decreases ports.len(),
{
    if ports.len() == 0 {
        None
    } else if ports[0] is Some {
        ports[0]
    } else {
        first_public_port(ports.drop_first())
    }
}

/// Words joined by single spaces.
pub open spec fn join_space(ws: Seq<Seq<char>>) -> Seq<char>
    decreases ws.len(),
{
    if ws.len() == 0 {
        Seq::empty()
    } else if ws.len() == 1 {
        ws[0]
    } else {
        join_space(ws.drop_last()) + " "@ + ws.last()
    }
}

/// A `docker top` row as one command line.
pub open spec fn row_line(row: Vec<String>) -> Seq<char> {
    join_space(views(row@))
}

/// The port named by the first of the first `n` rows that names one.
pub open spec fn row_port_upto(rows: Seq<Vec<String>>, n: int) -> Option<Seq<char>>
    decreases n,
{
    if n <= 0 {
        None
    } else {
        match row_port_upto(rows, n - 1) {
            Some(p) => Some(p),
            None => first_port(words(row_line(rows[n - 1])), 0),
        }
    }
}

/// The model named by the first of the first `n` rows that names one.
pub open spec fn row_model_upto(rows: Seq<Vec<String>>, n: int) -> Option<Seq<char>>
    decreases n,
{
    if n <= 0 {
        None
    } else {
        match row_model_upto(rows, n - 1) {
            Some(m) => Some(m),
            None => model_from_words(words(row_line(rows[n - 1]))),
        }
    }
}

/// The host PID in a `docker top` row's first column.
pub open spec fn row_pid(row: Vec<String>) -> Option<nat> {
    if row@.len() > 0 {
        parse_unsigned(trim(row@[0]@), 0xffff_ffff)
    } else {
        None
    }
}

/// Some row runs a vLLM server.
pub open spec fn rows_run_vllm(rows: Seq<Vec<String>>) -> bool {
    exists|i: int| 0 <= i < rows.len() && vllm_command(row_line(#[trigger] rows[i]))
}

/// The rows that count: `docker top` is only asked for a container with an
/// id.
pub open spec fn inspected_rows(c: ContainerRecord, rows: Seq<Vec<String>>) -> Seq<Vec<String>> {
    if text_or_empty(c.id).len() > 0 {
        rows
    } else {
        Seq::empty()
    }
}

/// The port a container serves on: a published binding, else a `--port` in
/// its command, else one in its process list.
pub open spec fn container_port(c: ContainerRecord, rows: Seq<Vec<String>>) -> Option<Seq<char>> {
    match first_public_port(c.public_ports@) {
        Some(p) => Some(decimal(p as nat)),
        None => match first_port(words(text_or_empty(c.command)), 0) {
            Some(p) => Some(p),
            None => row_port_upto(inspected_rows(c, rows), inspected_rows(c, rows).len() as int),
        },
    }
}

/// The model a container serves: from its command, else from its process
/// list.
pub open spec fn container_model(c: ContainerRecord, rows: Seq<Vec<String>>) -> Option<Seq<char>> {
    match model_from_words(words(text_or_empty(c.command))) {
        Some(m) => Some(m),
        None => row_model_upto(inspected_rows(c, rows), inspected_rows(c, rows).len() as int),
    }
}

/// A container is a vLLM engine: its image or entrypoint says so, or its
/// name does and a vLLM process runs in it.
pub open spec fn docker_vllm(c: ContainerRecord, rows: Seq<Vec<String>>) -> bool {
    image_or_command_vllm(c) || (named_vllm(c) && rows_run_vllm(inspected_rows(c, rows)))
}

fn mentions_vllm_exec(s: &str) -> (r: bool)
    ensures
        r == mentions_vllm(s@),
{
    let l = to_lowercase(s);
    let lc = to_chars(l.as_str());
    let pat = to_chars("vllm");
    contains(lc.as_slice(), pat.as_slice())
}

fn opt_mentions_vllm(o: &Option<String>) -> (r: bool)
    ensures
        r == mentions_vllm(text_or_empty(*o)),
{
    match o {
        Some(s) => {
            let r = mentions_vllm_exec(s.as_str());
            assert(text_or_empty(*o) == s@);
            r
        },
        None => {
            let e = String::new();
            mentions_vllm_exec(e.as_str())
        },
    }
}

fn any_name_mentions_vllm(names: &Vec<String>) -> (r: bool)
    ensures
        r == exists|i: int| 0 <= i < names@.len() && mentions_vllm(#[trigger] names@[i]@),
{
    let mut i: usize = 0;
    while i < names.len()
        invariant
            i <= names@.len(),
            forall|j: int| 0 <= j < i ==> !mentions_vllm(#[trigger] names@[j]@),
        decreases names.len() - i,
    {
        if mentions_vllm_exec(names[i].as_str()) {
            return true;
        }
        i = i + 1;
    }
    false
}

/// Whether a container is worth a closer look: its image, entrypoint or a
/// name mentions vLLM.
pub fn container_worth_inspecting(c: &ContainerRecord) -> (r: bool)
    ensures
        r == (image_or_command_vllm(*c) || named_vllm(*c)),
{
    opt_mentions_vllm(&c.image) || opt_mentions_vllm(&c.command) || any_name_mentions_vllm(&c.names)
}

fn first_public_port_exec(ports: &Vec<Option<u16>>) -> (r: Option<u16>)
    ensures
        r == first_public_port(ports@),
{
    let mut i: usize = 0;
    assert(ports@.subrange(0, ports@.len() as int) =~= ports@);
    while i < ports.len()
        invariant
            i <= ports@.len(),
            first_public_port(ports@) == first_public_port(ports@.subrange(i as int, ports@.len() as int)),
        decreases ports.len() - i,
    {
        assert(ports@.subrange(i as int, ports@.len() as int).drop_first() =~= ports@.subrange(
            i + 1,
            ports@.len() as int,
        ));
        if ports[i].is_some() {
            return ports[i];
        }
        i = i + 1;
    }
    None
}

/// The words of `row` joined by single spaces.
pub fn join_with_spaces(row: &[String]) -> (r: String)
    ensures
        r@ == join_space(views(row@)),
{
    let ghost ws = views(row@);
    let mut r = String::new();
    let mut i: usize = 0;
    assert(ws.take(0) =~= Seq::<Seq<char>>::empty());
    while i < row.len()
        invariant
            ws == views(row@),
            i <= ws.len(),
            r@ == join_space(ws.take(i as int)),
        decreases row.len() - i,
    {
        assert(ws.take(i + 1).drop_last() =~= ws.take(i as int));
        if i > 0 {
            r.append(" ");
        } else {
            assert(r@ =~= Seq::<char>::empty());
        }
        r.append(row[i].as_str());
        i = i + 1;
    }
    assert(ws.take(ws.len() as int) =~= ws);
    r
}

/// The candidate a container is, given the `docker top -eo pid,args` rows
/// of its processes (asked for only when the container has an id): `None`
/// unless its image or entrypoint says vLLM, or its name does and a vLLM
/// process runs in it. The port comes from a published binding, else the
/// command, else the process list, else vLLM's default; the model from the
/// command, else the process list; the PIDs are those of the rows, sorted.
pub fn docker_candidate(c: &ContainerRecord, rows: &[Vec<String>]) -> (r: Option<DetectedEngine>)
    ensures
        r is Some == docker_vllm(*c, rows@),
        r matches Some(d) ==> {
            &&& d@.engine_type == EngineType::Vllm
            &&& d@.deployment_mode == DeploymentMode::Docker
            &&& d@.endpoint == docker_endpoint_of(container_port(*c, rows@))
            &&& d@.served_model == container_model(*c, rows@)
            &&& d@.container_id == opt_view(c.id)
            &&& strictly_sorted(d@.pids)
            &&& forall|x: u32| d@.pids.contains(x) <==> exists|i: int|
                0 <= i < inspected_rows(*c, rows@).len() && row_pid(
                    #[trigger] inspected_rows(*c, rows@)[i],
                ) == Some(x as nat)
        },
{
    let is_vllm = opt_mentions_vllm(&c.image) || opt_mentions_vllm(&c.command);
    let named = any_name_mentions_vllm(&c.names);
    if !is_vllm && !named {
        return None;
    }
    let cmd_text: String = match &c.command {
        Some(t) => t.clone(),
        None => String::new(),
    };
    let mut port: Option<String> = match first_public_port_exec(&c.public_ports) {
        Some(p) => Some(to_decimal(p as u64)),
        None => parse_port_from_command_str(cmd_text.as_str()),
    };
    let mut model = parse_model_from_command_str(cmd_text.as_str());
    let has_id = match &c.id {
        Some(id) => id.unicode_len() > 0,
        None => false,
    };
    let ghost rs = inspected_rows(*c, rows@);
    let ghost port0 = opt_view(port);
    let ghost model0 = opt_view(model);
    let n: usize = if has_id {
        rows.len()
    } else {
        0
    };
    let mut pids: Vec<u32> = Vec::new();
    let mut saw = false;
    let mut i: usize = 0;
    while i < n
        invariant
            rs == inspected_rows(*c, rows@),
            n == rs.len(),
            n <= rows@.len(),
            i <= n,
            forall|j: int| 0 <= j < n ==> rs[j] == rows@[j],
            opt_view(port) == (if port0 is Some {
                port0
            } else {
                row_port_upto(rs, i as int)
            }),
            opt_view(model) == (if model0 is Some {
                model0
            } else {
                row_model_upto(rs, i as int)
            }),
            saw == exists|j: int| 0 <= j < i && vllm_command(row_line(#[trigger] rs[j])),
            pids@.no_duplicates(),
            forall|x: u32| pids@.contains(x) <==> exists|j: int| 0 <= j < i && row_pid(#[trigger] rs[j]) == Some(x as nat),
        decreases n - i,
    {
        let row = &rows[i];
        let ghost before = pids@;
        let pr = parse_pid_from_top_row(row.as_slice());
        assert(row@ == rs[i as int]@);
        match pr {
            Some(pid) => {
                if !vec_contains(&pids, pid) {
                    pids.push(pid);
                    assert(pids@[pids@.len() - 1] == pid);
                }
                assert(pids@.contains(pid));
            },
            None => {},
        }
        proof {
            assert forall|x: u32| pids@.contains(x) <==> exists|j: int| 0 <= j < i + 1 && row_pid(#[trigger] rs[j]) == Some(x as nat) by {
                if before.contains(x) {
                    let w = choose|w: int| 0 <= w < before.len() && before[w] == x;
                    assert(pids@[w] == x);
                }
                if pids@.contains(x) {
                    let w = choose|w: int| 0 <= w < pids@.len() && pids@[w] == x;
                    if w < before.len() {
                        assert(before[w] == x);
                    }
                }
                if row_pid(rs[i as int]) == Some(x as nat) {
                    assert(pr == Some(x));
                    assert(pids@.contains(x));
                }
                if exists|j: int| 0 <= j < i + 1 && row_pid(#[trigger] rs[j]) == Some(x as nat) {
                    let j = choose|j: int| 0 <= j < i + 1 && row_pid(#[trigger] rs[j]) == Some(x as nat);
                    if j < i {
                        assert(before.contains(x));
                    }
                }
            }
        }
        let line = join_with_spaces(row.as_slice());
        if is_vllm_process(line.as_str()) {
            saw = true;
        }
        if port.is_none() {
            port = parse_port_from_command_str(line.as_str());
        }
        if model.is_none() {
            model = parse_model_from_command_str(line.as_str());
        }
        i = i + 1;
    }
    if !is_vllm && !saw {
        return None;
    }
    let sorted = sort_u32(&pids);
    proof {
        lemma_same_multiset_same_values(pids@, sorted@);
        lemma_same_multiset_no_duplicates(pids@, sorted@);
        lemma_sorted_unique_is_strict(sorted@);
    }
    let (endpoint, _assumed) = match &port {
        Some(p) => docker_endpoint(Some(p.as_str())),
        None => docker_endpoint(None),
    };
    Some(
        DetectedEngine {
            engine_type: EngineType::Vllm,
            endpoint,
            deployment_mode: DeploymentMode::Docker,
            served_model: model,
            pids: sorted,
            container_id: clone_opt_string(&c.id),
        },
    )
}

proof fn lemma_tree_candidates(roots: Seq<u32>, procs: Seq<(u32, Option<u32>)>, x: u32, d: nat)
    requires
        reach(roots, procs, x, d),
    ensures
        pid_candidates(roots, procs).contains(x),
    decreases d,
{
    let c = pid_candidates(roots, procs);
    if d == 0 {
        let j = choose|j: int| 0 <= j < roots.len() && roots[j] == x;
        assert(c[j] == x);
    } else if reach(roots, procs, x, (d - 1) as nat) {
        lemma_tree_candidates(roots, procs, x, (d - 1) as nat);
    } else {
        let i = choose|i: int|
            0 <= i < procs.len() && (#[trigger] procs[i]).0 == x && procs[i].1 is Some && reach(
                roots,
                procs,
                procs[i].1->0,
                (d - 1) as nat,
            );
        assert(c[roots.len() + i] == x);
    }
}

/// The process tree holds every root and every child of a process in it,
/// and nothing but the roots and the listed PIDs.
pub proof fn law_tree_is_the_closure(roots: Seq<u32>, procs: Seq<(u32, Option<u32>)>, i: int, x: u32)
    ensures
        roots.contains(x) ==> in_tree(roots, procs, x),
        (0 <= i < procs.len() && procs[i].1 is Some && in_tree(roots, procs, procs[i].1->0))
            ==> in_tree(roots, procs, procs[i].0),
        in_tree(roots, procs, x) ==> pid_candidates(roots, procs).contains(x),
{
    if roots.contains(x) {
        assert(reach(roots, procs, x, 0));
    }
    if 0 <= i < procs.len() && procs[i].1 is Some && in_tree(roots, procs, procs[i].1->0) {
        let d = choose|d: nat| reach(roots, procs, procs[i].1->0, d);
        assert(reach(roots, procs, procs[i].0, d + 1));
    }
    if in_tree(roots, procs, x) {
        let d = choose|d: nat| reach(roots, procs, x, d);
        lemma_tree_candidates(roots, procs, x, d);
    }
}

proof fn lemma_no_flag_model(ws: Seq<Seq<char>>, k: int)
    requires
        forall|x: int| 0 <= x < ws.len() ==> (#[trigger] ws[x]) != "--model"@ && !has_prefix(ws[x], "--model="@),
    ensures
        first_flag_model(ws, k) is None,
    decreases ws.len() - k,
{
    if 0 <= k < ws.len() {
        lemma_no_flag_model(ws, k + 1);
    }
}

proof fn lemma_serve_model_skips(ws: Seq<Seq<char>>, k: int, i: int)
    requires
        0 <= k <= i < ws.len(),
        forall|x: int|
            0 <= x < i ==> !(#[trigger] ws[x] == "vllm"@ || has_suffix(ws[x], "/vllm"@) || has_infix(
                ws[x],
                "vllm.entrypoints"@,
            )),
    ensures
        first_serve_model(ws, k) == first_serve_model(ws, i),
    decreases i - k,
{
    if k < i {
        assert(!is_vllm_arg(ws[k]));
        lemma_serve_model_skips(ws, k + 1, i);
    }
}

/// The positional form finds the model behind any vLLM entrypoint: where no
/// `--model` flag is given and the first entrypoint word (the `vllm` binary,
/// a path ending in `/vllm`, as in `python3 /usr/local/bin/vllm serve <id>`,
/// or the `vllm.entrypoints` module) is followed by `serve` and a value
/// that is not a flag, that value is the served model.
pub proof fn law_serve_follows_any_entrypoint(ws: Seq<Seq<char>>, i: int)
    requires
        0 <= i,
        i + 2 < ws.len(),
        forall|x: int| 0 <= x < ws.len() ==> (#[trigger] ws[x]) != "--model"@ && !has_prefix(ws[x], "--model="@),
        ws[i] == "vllm"@ || has_suffix(ws[i], "/vllm"@) || has_infix(ws[i], "vllm.entrypoints"@),
        forall|x: int|
            0 <= x < i ==> !(#[trigger] ws[x] == "vllm"@ || has_suffix(ws[x], "/vllm"@) || has_infix(
                ws[x],
                "vllm.entrypoints"@,
            )),
        ws[i + 1] == "serve"@,
        ws[i + 2].len() > 0,
        ws[i + 2][0] != '-',
    ensures
        model_from_words(ws) == Some(ws[i + 2]),
{
    lemma_no_flag_model(ws, 0);
    lemma_serve_model_skips(ws, 0, i);
    assert(first_index_of(ws, "serve"@, i + 1) == Some(i + 1));
    assert(serve_model_at(ws, i) == Some(ws[i + 2]));
}

proof fn lemma_first_public_port(ports: Seq<Option<u16>>, k: int, p: u16)
    requires
        0 <= k < ports.len(),
        ports[k] == Some(p),
        forall|j: int| 0 <= j < k ==> (#[trigger] ports[j]) is None,
    ensures
        first_public_port(ports) == Some(p),
    decreases k,
{
    if k > 0 {
        let rest = ports.drop_first();
        assert forall|j: int| 0 <= j < k - 1 implies (#[trigger] rest[j]) is None by {
            assert(rest[j] == ports[j + 1]);
        }
        assert(rest[k - 1] == ports[k]);
        lemma_first_public_port(rest, k - 1, p);
    }
}

/// A published port wins: a container whose first published binding is
/// host port `p` is probed at `http://localhost:<p>`, whatever `--port` its
/// command or its process list names (that is the port inside the
/// container, which a bridge network maps elsewhere).
pub proof fn law_published_port_wins(c: ContainerRecord, rows: Seq<Vec<String>>, k: int, p: u16)
    requires
        0 <= k < c.public_ports@.len(),
        c.public_ports@[k] == Some(p),
        forall|j: int| 0 <= j < k ==> (#[trigger] c.public_ports@[j]) is None,
    ensures
        docker_endpoint_of(container_port(c, rows)) == "http://localhost:"@ + decimal(p as nat),
{
    lemma_first_public_port(c.public_ports@, k, p);
}

/// The word names neither a port nor a host.
pub open spec fn plain_word(w: Seq<char>) -> bool {
    w != "--port"@ && !has_prefix(w, "--port="@) && w != "--host"@ && !has_prefix(w, "--host="@)
}

proof fn lemma_scan_over_plain(
    ws: Seq<Seq<char>>,
    k: int,
    i: int,
    host: Option<Seq<char>>,
    port: Option<Seq<char>>,
)
    requires
        0 <= k <= i <= ws.len(),
        forall|x: int| k <= x < i ==> plain_word(#[trigger] ws[x]),
    ensures
        endpoint_scan(ws, k, host, port) == endpoint_scan(ws, i, host, port),
    decreases i - k,
{
    if k < i {
        assert(plain_word(ws[k]));
        lemma_scan_over_plain(ws, k + 1, i, host, port);
    }
}

proof fn lemma_scan_keeps_port(ws: Seq<Seq<char>>, k: int, host: Option<Seq<char>>, port: Option<Seq<char>>)
    requires
        0 <= k,
        forall|x: int| 0 <= x < ws.len() ==> (#[trigger] ws[x]) != "--port"@ && !has_prefix(ws[x], "--port="@),
    ensures
        endpoint_scan(ws, k, host, port).1 == port,
    decreases ws.len() - k,
{
    if k < ws.len() {
        if ws[k] == "--host"@ && k + 1 < ws.len() {
            lemma_scan_keeps_port(ws, k + 2, Some(ws[k + 1]), port);
        } else if has_prefix(ws[k], "--host="@) {
            lemma_scan_keeps_port(ws, k + 1, Some(after(ws[k], "--host="@.len())), port);
        } else {
            lemma_scan_keeps_port(ws, k + 1, host, port);
        }
    }
}

/// An endpoint is built only from a port: a command line that names no
/// port (whatever host it names) keeps the default endpoint; one whose only
/// host or port flag is `--port <p>` is probed at `http://localhost:<p>`.
pub proof fn law_endpoint_needs_a_port(ws: Seq<Seq<char>>, default_endpoint: Seq<char>, i: int)
    ensures
        (forall|x: int| 0 <= x < ws.len() ==> (#[trigger] ws[x]) != "--port"@ && !has_prefix(ws[x], "--port="@))
            ==> endpoint_of(ws, default_endpoint) == default_endpoint,
        (0 <= i && i + 1 < ws.len() && ws[i] == "--port"@ && (forall|x: int|
            0 <= x < ws.len() && x != i ==> plain_word(#[trigger] ws[x]))) ==> endpoint_of(
            ws,
            default_endpoint,
        ) == "http://"@ + "localhost"@ + ":"@ + ws[i + 1],
{
    if forall|x: int| 0 <= x < ws.len() ==> (#[trigger] ws[x]) != "--port"@ && !has_prefix(ws[x], "--port="@) {
        lemma_scan_keeps_port(ws, 0, None, None);
    }
    if 0 <= i && i + 1 < ws.len() && ws[i] == "--port"@ && (forall|x: int|
        0 <= x < ws.len() && x != i ==> plain_word(#[trigger] ws[x])) {
        lemma_scan_over_plain(ws, 0, i, None, None);
        lemma_scan_over_plain(ws, i + 2, ws.len() as int, None, Some(ws[i + 1]));
        assert(endpoint_scan(ws, ws.len() as int, None, Some(ws[i + 1])) == (None::<Seq<char>>, Some(ws[i + 1])));
    }
}

} // verus!
