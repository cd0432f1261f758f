//! llama.cpp (`llama-server`): how its model identity is resolved and how
//! requests are counted from its `/slots` endpoint.
//!
//! The HTTP requests and the float metrics stay outside; these functions
//! decide what the answers mean.
use vstd::prelude::*;
use vstd::string::*;
use crate::engines::{ModelInfo, ModelMetadataError, ModelResolution};
use crate::hec::sat_add;
use crate::text::{opt_str, opt_view, substring, to_chars};

verus! {

/// The text after the last `/` of `s` (all of `s` when it has none).
pub open spec fn basename(s: Seq<char>) -> Seq<char>
    decreases s.len(),
{
    if s.len() == 0 {
        s
    } else if s.last() == '/' {
        Seq::empty()
    } else {
        basename(s.drop_last()).push(s.last())
    }
}

/// The name shown for a model identifier (usually a `.gguf` path): its
/// basename, or the whole identifier when that is empty.
pub open spec fn display_model_name(s: Seq<char>) -> Seq<char> {
    if basename(s).len() > 0 {
        basename(s)
    } else {
        s
    }
}

/// A model known by name only.
pub open spec fn name_only(m: ModelInfo) -> bool {
    &&& m.parameter_size is None
    &&& m.quantization is None
    &&& m.precision is None
    &&& m.tensor_type is None
    &&& m.model_type is None
    &&& m.pipeline_tag is None
}

/// Reduces a model identifier to a display `ModelInfo`: the basename of a
/// path, so the tile reads as a model name; no other metadata.
pub fn model_from_name(name: &str) -> (r: ModelInfo)
    ensures
        r.name@ == display_model_name(name@),
        name_only(r),
{
    let c = to_chars(name);
    let mut start: usize = c.len();
    assert(c@.subrange(0, c@.len() as int) =~= c@);
    assert(c@.subrange(c@.len() as int, c@.len() as int) =~= Seq::<char>::empty());
    assert(basename(c@) + Seq::<char>::empty() =~= basename(c@));
    while start > 0 && c[start - 1] != '/'
        invariant
            start <= c@.len(),
            c@ == name@,
            basename(name@) == basename(c@.subrange(0, start as int)) + c@.subrange(
                start as int,
                c@.len() as int,
            ),
        decreases start,
    {
        let ghost pre = c@.subrange(0, start as int);
        assert(pre.drop_last() =~= c@.subrange(0, start - 1));
        assert(c@.subrange(start - 1, c@.len() as int) =~= seq![c@[start - 1]] + c@.subrange(
            start as int,
            c@.len() as int,
        ));
        assert(basename(pre) == basename(pre.drop_last()).push(pre.last()));
        assert(basename(pre.drop_last()).push(pre.last()) + c@.subrange(start as int, c@.len() as int)
            =~= basename(c@.subrange(0, start - 1)) + c@.subrange(start - 1, c@.len() as int));
        start = start - 1;
    }
    proof {
        let pre = c@.subrange(0, start as int);
        if start > 0 {
            assert(pre.last() == '/');
        } else {
            assert(pre =~= Seq::<char>::empty());
        }
        assert(basename(pre) =~= Seq::<char>::empty());
        assert(basename(name@) =~= c@.subrange(start as int, c@.len() as int));
    }
    let display = if start < c.len() {
        substring(name, start, c.len())
    } else {
        name.to_owned()
    };
    ModelInfo {
        name: display,
        parameter_size: None,
        quantization: None,
        precision: None,
        tensor_type: None,
        model_type: None,
        pipeline_tag: None,
    }
}

/// How a non-success `/v1/models` status is read: 401/403 mean a key is
/// needed, anything else that metadata is unavailable.
pub open spec fn models_error(status: u16) -> ModelMetadataError {
    if status == 401 || status == 403 {
        ModelMetadataError::AuthRequired
    } else {
        ModelMetadataError::Unavailable
    }
}

/// Classifies a non-success `/v1/models` status.
pub fn classify_models_error_status(status: u16) -> (r: ModelMetadataError)
    ensures
        r == models_error(status),
{
    if status == 401 || status == 403 {
        ModelMetadataError::AuthRequired
    } else {
        ModelMetadataError::Unavailable
    }
}

/// One entry of llama.cpp's `/v1/models` reply (`{"models":[{"name":…,
/// "model":…}]}`).
#[derive(Clone, Debug)]
pub struct LlamaModelEntry {
    pub name: Option<String>,
    pub model: Option<String>,
}

/// What asking llama.cpp's `/v1/models` produced.
#[derive(Clone, Debug)]
pub enum ModelsReply {
    /// A success status with a body that parsed, holding these entries.
    Listed(Vec<LlamaModelEntry>),
    /// A success status with a body that did not parse.
    Unparsable,
    /// A non-success status.
    Status(u16),
    /// The request itself failed.
    Failed,
}

/// The model name a parsed reply gives: the first entry's `name`, else its
/// `model`.
pub open spec fn listed_name(entries: Seq<LlamaModelEntry>) -> Option<Seq<char>> {
    if entries.len() == 0 {
        None
    } else if entries[0].name is Some {
        opt_view(entries[0].name)
    } else {
        opt_view(entries[0].model)
    }
}

/// A resolution as plain values: the displayed name (if any) and the error.
pub open spec fn resolution_view(r: ModelResolution) -> (Option<Seq<char>>, Option<ModelMetadataError>) {
    (
        match r.model {
            Some(m) => Some(m.name@),
            None => None,
        },
        r.metadata_error,
    )
}

/// The name to show for an optional identifier.
pub open spec fn shown(name: Option<Seq<char>>) -> Option<Seq<char>> {
    match name {
        Some(n) => Some(display_model_name(n)),
        None => None,
    }
}

/// How llama.cpp's model is resolved: the API's name wins and the launch
/// command line's model is the fallback; a failed request, an error status,
/// a body that does not parse or a list without a name keeps the fallback
/// and says why the engine's own answer is missing.
pub open spec fn llama_resolution(reply: ModelsReply, served: Option<Seq<char>>) -> (
    Option<Seq<char>>,
    Option<ModelMetadataError>,
) {
    match reply {
        ModelsReply::Status(s) => (shown(served), Some(models_error(s))),
        ModelsReply::Failed => (shown(served), Some(ModelMetadataError::Unavailable)),
        ModelsReply::Unparsable => (shown(served), Some(ModelMetadataError::Unavailable)),
        ModelsReply::Listed(entries) => match listed_name(entries@) {
            Some(n) => (Some(display_model_name(n)), None),
            None => (shown(served), Some(ModelMetadataError::Unavailable)),
        },
    }
}

fn shown_model(name: Option<&str>) -> (r: Option<ModelInfo>)
    ensures
        match r {
            Some(m) => shown(opt_str(name)) == Some(m.name@) && name_only(m),
            None => name is None,
        },
{
    match name {
        Some(n) => Some(model_from_name(n)),
        None => None,
    }
}

/// Resolves llama.cpp's model from its `/v1/models` reply and the model the
/// detector read off its launch command line.
pub fn llama_model_resolution(reply: ModelsReply, served_model: Option<&str>) -> (r: ModelResolution)
    ensures
        resolution_view(r) == llama_resolution(reply, opt_str(served_model)),
        r.model matches Some(m) ==> name_only(m),
{
    match reply {
        ModelsReply::Status(s) => ModelResolution {
            model: shown_model(served_model),
            metadata_error: Some(classify_models_error_status(s)),
        },
        ModelsReply::Failed => ModelResolution {
            model: shown_model(served_model),
            metadata_error: Some(ModelMetadataError::Unavailable),
        },
        ModelsReply::Unparsable => ModelResolution {
            model: shown_model(served_model),
            metadata_error: Some(ModelMetadataError::Unavailable),
        },
        ModelsReply::Listed(entries) => {
            let api_name: Option<&String> = if entries.len() == 0 {
                None
            } else {
                match &entries[0].name {
                    Some(n) => Some(n),
                    None => match &entries[0].model {
                        Some(m) => Some(m),
                        None => None,
                    },
                }
            };
            match api_name {
                Some(n) => ModelResolution {
                    model: Some(model_from_name(n.as_str())),
                    metadata_error: None,
                },
                None => ModelResolution {
                    model: shown_model(served_model),
                    metadata_error: Some(ModelMetadataError::Unavailable),
                },
            }
        },
    }
}

// ---------------------------------------------------------------------------
// The /metrics answer
// ---------------------------------------------------------------------------

/// The metrics-disabled flag after `/metrics` answered with `status`: a 501
/// (the server was started without `--metrics`) sets it, any success clears
/// it (the server has since gained the flag), anything else leaves it.
pub open spec fn metrics_disabled_after(status: u16, disabled: bool) -> bool {
    if status == 501 {
        true
    } else if 200 <= status < 300 {
        false
    } else {
        disabled
    }
}

/// Reads the status of a `/metrics` answer, given the metrics-disabled flag
/// before it: returns the flag after it, and whether the body is to be read
/// (only on a success).
pub fn metrics_answer(status: u16, disabled: bool) -> (r: (bool, bool))
    ensures
        r.0 == metrics_disabled_after(status, disabled),
        r.1 == (200 <= status < 300),
{
    if status == 501 {
        (true, false)
    } else if 200 <= status && status < 300 {
        (false, true)
    } else {
        (disabled, false)
    }
}

// ---------------------------------------------------------------------------
// Counting requests from /slots
// ---------------------------------------------------------------------------

/// What was last seen of a slot: the `is_processing` of the first pair for
/// `id`.
pub open spec fn slot_seen(states: Seq<(u32, bool)>, id: u32) -> Option<bool>
    decreases states.len(),
{
    if states.len() == 0 {
        None
    } else if states[0].0 == id {
        Some(states[0].1)
    } else {
        slot_seen(states.drop_first(), id)
    }
}

/// The index of the first pair for `id`.
pub open spec fn slot_index(states: Seq<(u32, bool)>, id: u32, i: int) -> Option<int>
    decreases states.len() - i,
{
    if i < 0 || i >= states.len() {
        None
    } else if states[i].0 == id {
        Some(i)
    } else {
        slot_index(states, id, i + 1)
    }
}

/// The slot states with `id` now at `processing`.
pub open spec fn slot_set(states: Seq<(u32, bool)>, id: u32, processing: bool) -> Seq<(u32, bool)> {
    match slot_index(states, id, 0) {
        Some(i) => states.update(i, (id, processing)),
        None => states.push((id, processing)),
    }
}

/// Whether a slot started a request: it was seen idle and is processing
/// now. A slot seen for the first time only establishes its state.
pub open spec fn slot_started(states: Seq<(u32, bool)>, id: u32, processing: bool) -> bool {
    processing && match slot_index(states, id, 0) {
        Some(i) => !states[i].1,
        None => false,
    }
}

/// The slot states and the request count after one `/slots` poll.
pub open spec fn observed(states: Seq<(u32, bool)>, count: u64, slots: Seq<(u32, bool)>) -> (
    Seq<(u32, bool)>,
    u64,
)
    decreases slots.len(),
{
    if slots.len() == 0 {
        (states, count)
    } else {
        let (s, c) = observed(states, count, slots.drop_last());
        let (id, p) = slots.last();
        (slot_set(s, id, p), if slot_started(s, id, p) {
            sat_add(c, 1)
        } else {
            c
        })
    }
}

/// The request counter of a llama.cpp engine: each slot's `is_processing`
/// going from false to true is one started request (approximate: requests
/// shorter than a poll interval are missed).
pub struct SlotTracker {
    states: Vec<(u32, bool)>,
    started: u64,
}

/// The tracker as plain values.
pub struct SlotTrackerModel {
    pub states: Seq<(u32, bool)>,
    pub started: u64,
}

impl View for SlotTracker {
    type V = SlotTrackerModel;

    closed spec fn view(&self) -> SlotTrackerModel {
        SlotTrackerModel { states: self.states@, started: self.started }
    }
}

impl SlotTracker {
    /// A tracker that has seen no slot and counted no request.
    pub fn new() -> (r: Self)
        ensures
            r@.states.len() == 0,
            r@.started == 0,
    {
        SlotTracker { states: Vec::new(), started: 0 }
    }

    /// The requests counted since attach (or the last reset).
    pub fn count(&self) -> (r: u64)
        ensures
            r == self@.started,
    {
        self.started
    }

    /// Resets the count after an engine restart.
    pub fn reset_count(&mut self)
        ensures
            final(self)@.started == 0,
            final(self)@.states == old(self)@.states,
    {
        self.started = 0;
    }

    fn index_of(&self, id: u32) -> (r: Option<usize>)
        ensures
            match r {
                Some(i) => slot_index(self@.states, id, 0) == Some(i as int) && i < self@.states.len(),
                None => slot_index(self@.states, id, 0) is None,
            },
    {
        let mut i: usize = 0;
        while i < self.states.len()
            invariant
                i <= self.states@.len(),
                slot_index(self.states@, id, 0) == slot_index(self.states@, id, i as int),
            decreases self.states.len() - i,
        {
            if self.states[i].0 == id {
                return Some(i);
            }
            i = i + 1;
        }
        None
    }

    /// Folds one `/slots` poll — `(slot id, is_processing)` per slot — into
    /// the count and returns it. A slot seen for the first time only
    /// establishes its state, so a request already running at attach is not
    /// counted later.
    pub fn observe(&mut self, slots: &[(u32, bool)]) -> (r: u64)
        ensures
            (final(self)@.states, final(self)@.started) == observed(
                old(self)@.states,
                old(self)@.started,
                slots@,
            ),
            r == final(self)@.started,
    {
        let ghost s0 = self@;
        let mut k: usize = 0;
        assert(slots@.take(0) =~= Seq::<(u32, bool)>::empty());
        while k < slots.len()
            invariant
                k <= slots@.len(),
                (self@.states, self@.started) == observed(s0.states, s0.started, slots@.take(k as int)),
            decreases slots.len() - k,
        {
            assert(slots@.take(k + 1).drop_last() =~= slots@.take(k as int));
            assert(slots@.take(k + 1).last() == slots@[k as int]);
            let (id, processing) = slots[k];
            match self.index_of(id) {
                Some(i) => {
                    let was = self.states[i].1;
                    if !was && processing {
                        self.started = self.started.saturating_add(1);
                    }
                    self.states.set(i, (id, processing));
                },
                None => {
                    self.states.push((id, processing));
                },
            }
            k = k + 1;
        }
        assert(slots@.take(slots@.len() as int) =~= slots@);
        self.started
    }
}


proof fn lemma_slot_index(states: Seq<(u32, bool)>, id: u32, from: int)
    requires
        0 <= from,
    ensures
        match slot_index(states, id, from) {
            Some(k) => from <= k < states.len() && states[k].0 == id && forall|j: int|
                from <= j < k ==> (#[trigger] states[j]).0 != id,
            None => forall|j: int| from <= j < states.len() ==> (#[trigger] states[j]).0 != id,
        },
    decreases states.len() - from,
{
    if from < states.len() {
        lemma_slot_index(states, id, from + 1);
    }
}

proof fn lemma_slot_index_unique(states: Seq<(u32, bool)>, id: u32, k: int)
    requires
        0 <= k < states.len(),
        states[k].0 == id,
        forall|j: int| 0 <= j < k ==> (#[trigger] states[j]).0 != id,
    ensures
        slot_index(states, id, 0) == Some(k),
{
    lemma_slot_index(states, id, 0);
    match slot_index(states, id, 0) {
        Some(m) => {
            if m < k {
                assert(states[m].0 != id);
            }
            if m > k {
                assert(states[k].0 != id);
            }
        },
        None => {
            assert(states[k].0 != id);
        },
    }
}

/// Request counting: the count never goes down; a known idle slot that
/// starts processing is one request, and staying busy on the next poll is
/// not another; a slot seen for the first time is not counted.
pub proof fn law_slot_counting(states: Seq<(u32, bool)>, count: u64, id: u32)
    ensures
        slot_index(states, id, 0) is None ==> observed(states, count, seq![(id, true)]).1 == count,
        (slot_index(states, id, 0) matches Some(i) && !states[i].1 && count < u64::MAX) ==> {
            let (s1, c1) = observed(states, count, seq![(id, true)]);
            &&& c1 == count + 1
            &&& observed(s1, c1, seq![(id, true)]).1 == c1
        },
{
    let one = seq![(id, true)];
    assert(one.drop_last() =~= Seq::<(u32, bool)>::empty());
    assert(one.last() == (id, true));
    assert(observed(states, count, one.drop_last()) == (states, count));
    lemma_slot_index(states, id, 0);
    if let Some(i) = slot_index(states, id, 0) {
        let s1 = states.update(i, (id, true));
        assert forall|j: int| 0 <= j < i implies (#[trigger] s1[j]).0 != id by {
            assert(s1[j] == states[j]);
        }
        lemma_slot_index_unique(s1, id, i);
        assert(observed(states, count, one).0 == s1);
        let c1 = observed(states, count, one).1;
        assert(observed(s1, c1, one.drop_last()) == (s1, c1));
    }
}

/// Folding a poll never lowers the count.
pub proof fn law_count_never_decreases(states: Seq<(u32, bool)>, count: u64, slots: Seq<(u32, bool)>)
    ensures
        observed(states, count, slots).1 >= count,
    decreases slots.len(),
{
    if slots.len() > 0 {
        law_count_never_decreases(states, count, slots.drop_last());
    }
}

/// A model name the engine did not give itself is always flagged: the
/// resolution carries no metadata error exactly when the engine listed a
/// model with a name (or a model id) first; otherwise the launch command
/// line's model is shown, with the reason. A 401/403 asks for a key, and
/// every other failure, an unreadable body or a list without a name
/// included, is `Unavailable`.
pub proof fn law_missing_answer_is_flagged(reply: ModelsReply, served: Option<Seq<char>>)
    ensures
        (llama_resolution(reply, served).1 is None) == (reply matches ModelsReply::Listed(entries)
            && entries@.len() > 0 && (entries@[0].name is Some || entries@[0].model is Some)),
        llama_resolution(reply, served).1 is Some ==> llama_resolution(reply, served).0 == shown(
            served,
        ),
        llama_resolution(reply, served).1 == Some(ModelMetadataError::AuthRequired) <==> (
        reply matches ModelsReply::Status(s) && (s == 401 || s == 403)),
{
}

} // verus!
