//! Preparing Prometheus exposition text for parsing, and sorting the
//! untyped samples it yields.
//!
//! vLLM and llama.cpp put a colon in their metric prefixes (`vllm:…`,
//! `llamacpp:…`); colons are reserved for recording rules and such samples
//! would be dropped, so the prefixes are rewritten before parsing.
use vstd::prelude::*;
use vstd::string::*;
use crate::text::{ends_with, has_prefix, has_suffix, matches_at, occurs_at, substring, to_chars};

verus! {

/// `s` with every occurrence of `from` replaced by `to`, scanning left to
/// right without overlaps: what `str::replace` yields.
pub open spec fn replace_all(s: Seq<char>, from: Seq<char>, to: Seq<char>) -> Seq<char>
    recommends
        from.len() > 0,
    decreases s.len(),
{
    if s.len() == 0 || from.len() == 0 {
        s
    } else if has_prefix(s, from) {
        to + replace_all(s.subrange(from.len() as int, s.len() as int), from, to)
    } else {
        seq![s[0]] + replace_all(s.drop_first(), from, to)
    }
}

/// `s` with every `from` replaced by `to` (`from` not empty).
pub fn replace_str(s: &str, from: &str, to: &str) -> (r: String)
    requires
        from@.len() > 0,
    ensures
        r@ == replace_all(s@, from@, to@),
{
    let cs = to_chars(s);
    let pat = to_chars(from);
    let n = cs.len();
    let mut out = String::new();
    let mut start: usize = 0;
    let mut i: usize = 0;
    assert(cs@.subrange(0, n as int) =~= cs@);
    assert(cs@.subrange(0, 0) =~= Seq::<char>::empty());
    while i < n
        invariant
            cs@ == s@,
            pat@ == from@,
            pat@.len() > 0,
            n == cs@.len(),
            start <= i <= n,
            replace_all(s@, from@, to@) == out@ + cs@.subrange(start as int, i as int) + replace_all(
                cs@.subrange(i as int, n as int),
                from@,
                to@,
            ),
        decreases n - i,
    {
        let ghost rest = cs@.subrange(i as int, n as int);
        if matches_at(cs.as_slice(), pat.as_slice(), i) {
            assert(rest.subrange(0, pat@.len() as int) =~= cs@.subrange(i as int, i + pat@.len()));
            assert(has_prefix(rest, from@));
            assert(rest.subrange(pat@.len() as int, rest.len() as int) =~= cs@.subrange(
                i + pat@.len(),
                n as int,
            ));
            let piece = substring(s, start, i);
            out.append(piece.as_str());
            out.append(to);
            let ghost before_i = i;
            i = i + pat.len();
            start = i;
            assert(cs@.subrange(start as int, i as int) =~= Seq::<char>::empty());
            assert(replace_all(s@, from@, to@) =~= out@ + cs@.subrange(start as int, i as int)
                + replace_all(cs@.subrange(i as int, n as int), from@, to@));
        } else {
            assert(!has_prefix(rest, from@)) by {
                if has_prefix(rest, from@) {
                    assert(rest.subrange(0, from@.len() as int) =~= cs@.subrange(
                        i as int,
                        i + from@.len(),
                    ));
                    assert(occurs_at(cs@, pat@, i as int));
                }
            }
            assert(rest.drop_first() =~= cs@.subrange(i + 1, n as int));
            assert(cs@.subrange(start as int, i + 1) =~= cs@.subrange(start as int, i as int) + seq![
                cs@[i as int],
            ]);
            assert(replace_all(s@, from@, to@) =~= out@ + cs@.subrange(start as int, i + 1)
                + replace_all(cs@.subrange(i + 1, n as int), from@, to@));
            i = i + 1;
        }
    }
    assert(cs@.subrange(n as int, n as int) =~= Seq::<char>::empty());
    let tail = substring(s, start, n);
    out.append(tail.as_str());
    proof {
        assert(replace_all(Seq::<char>::empty(), from@, to@) =~= Seq::<char>::empty());
        assert(out@ =~= replace_all(s@, from@, to@));
    }
    out
}

/// The exposition text with the `vllm:` and `llamacpp:` prefixes rewritten
/// to `vllm_` and `llamacpp_`.
pub open spec fn normalized(body: Seq<char>) -> Seq<char> {
    replace_all(replace_all(body, "vllm:"@, "vllm_"@), "llamacpp:"@, "llamacpp_"@)
}

/// Rewrites the colon prefixes of vLLM and llama.cpp metric names, in
/// sample lines and `# TYPE` / `# HELP` lines alike, so a parser matches
/// samples to their type declarations.
pub fn normalize_metric_prefixes(body: &str) -> (r: String)
    ensures
        r@ == normalized(body@),
{
    proof {
        reveal_strlit("vllm:");
        reveal_strlit("llamacpp:");
    }
    let first = replace_str(body, "vllm:", "vllm_");
    replace_str(first.as_str(), "llamacpp:", "llamacpp_")
}

/// An untyped sample is kept with the counters when its name ends with
/// `_sum`, `_count` or `_total` (histogram and summary parts, counters);
/// otherwise with the gauges.
pub open spec fn untyped_counter_name(name: Seq<char>) -> bool {
    has_suffix(name, "_sum"@) || has_suffix(name, "_count"@) || has_suffix(name, "_total"@)
}

/// Whether an untyped sample named `name` is kept with the counters.
pub fn untyped_is_counter(name: &str) -> (r: bool)
    ensures
        r == untyped_counter_name(name@),
{
    let n = to_chars(name);
    let a = to_chars("_sum");
    let b = to_chars("_count");
    let c = to_chars("_total");
    ends_with(n.as_slice(), a.as_slice()) || ends_with(n.as_slice(), b.as_slice()) || ends_with(
        n.as_slice(),
        c.as_slice(),
    )
}

} // verus!
