//! Preparing a request: what it demands of the upstream, and what of it the state of its lane
//! stands for.

use vstd::prelude::*;
use vstd::slice::slice_subrange;
use vstd::string::*;

use crate::canonical::canonical_json;
use crate::canonical;
use crate::config::InlineCompactionConfig;
use crate::digest::hash_text;
use crate::digest;
use crate::encoding::encode_json;
use crate::encoding;
use crate::error::{concatenated, InlineCompactionError};
use crate::fingerprint::request_fingerprint;
use crate::fingerprint;
use crate::json::{Json, JsonTree};
use crate::json;
use crate::parsing;
use crate::replay::{portable_replay_plan, replay_start};
use crate::replay;
use crate::request::{
    envelope_size, ResponsesContextManagement, ResponsesInputItem, ResponsesRequest,
};
use crate::request;
use crate::sidecar::{validate_raw_fragments, SidecarState, StateView};
use crate::sidecar;
use crate::text::{lists_text, same_text};
use crate::text;
use crate::transcript::hash_transcript;
use crate::transcript;

verus! {

/// A prepared request: by what its lane, its meaning and its transcript are recognised, the state
/// that it continues, the items that it adds to that state, and why an earlier state does not
/// count. `clear_state` says that the sidecar is stale and is to be removed.
#[derive(Debug)]
pub struct PreparedInlineCompaction {
    pub threshold: u64,
    pub state_file: String,
    pub lane_hash: String,
    pub model: String,
    pub semantic_fingerprint: String,
    pub source_prefix_count: usize,
    pub source_prefix_sha256: String,
    pub previous: Option<SidecarState>,
    pub pending_input_suffix_json: Vec<String>,
    pub state_invalidation_reason: Option<&'static str>,
    pub portable_compact_boundary: bool,
    pub clear_state: bool,
}

impl PreparedInlineCompaction {
    /// The hash of the lane.
    pub fn lane_hash(&self) -> (hash: &str)
        ensures
            hash@ == self.lane_hash@,
    {
        self.lane_hash.as_str()
    }

    /// Whether the request asks for a summary that starts a new lineage.
    pub fn portable_compact_boundary(&self) -> (boundary: bool)
        ensures
            boundary == self.portable_compact_boundary,
    {
        self.portable_compact_boundary
    }
}

/// The items of a request behind its envelope, as values.
pub open spec fn conversation_of(items: Seq<ResponsesInputItem>) -> Seq<JsonTree> {
    let rest = items.skip(request::envelope_length(items));
    Seq::new(rest.len(), |i: int| canonical::canonical(rest[i].tree()))
}

/// The envelope of a request.
pub open spec fn envelope_of(items: Seq<ResponsesInputItem>) -> Seq<ResponsesInputItem> {
    items.take(request::envelope_length(items))
}

/// The encodings of items.
pub open spec fn item_texts(items: Seq<ResponsesInputItem>) -> Seq<Seq<char>> {
    Seq::new(items.len(), |i: int| encoding::encoded(items[i].tree()))
}

/// The encodings of values.
pub open spec fn value_texts(values: Seq<JsonTree>) -> Seq<Seq<char>> {
    Seq::new(values.len(), |i: int| encoding::encoded(values[i]))
}

/// What a response is to hold besides its items, once encrypted reasoning is among it.
pub open spec fn with_reasoning(included: Option<Vec<String>>) -> Seq<Seq<char>> {
    let names = match included {
        Some(names) => text::texts(names@),
        None => Seq::empty(),
    };
    if names.contains("reasoning.encrypted_content"@) {
        names
    } else {
        names.push("reasoning.encrypted_content"@)
    }
}

/// Whether `after` is the request `before` with the demand to compact at `threshold` and to
/// include encrypted reasoning, and nothing else changed but the items sent in place of its input.
pub open spec fn demands_compaction(
    before: ResponsesRequest,
    after: ResponsesRequest,
    threshold: u64,
) -> bool {
    &&& after.context_management matches Some(demands)
    &&& demands@ == seq![
        ResponsesContextManagement::Compaction { compact_threshold: threshold },
    ]
    &&& after.included matches Some(names)
    &&& text::texts(names@) == with_reasoning(before.included)
    &&& after.model == before.model
    &&& after.instructions == before.instructions
    &&& after.input == before.input
    &&& after.tools == before.tools
    &&& after.tool_choice == before.tool_choice
    &&& after.store == before.store
    &&& after.stream == before.stream
    &&& after.parallel_tool_calls == before.parallel_tool_calls
    &&& after.client_metadata == before.client_metadata
    &&& after.service_tier == before.service_tier
    &&& after.prompt_cache_key == before.prompt_cache_key
    &&& after.text == before.text
    &&& after.reasoning == before.reasoning
}

/// Why a state does not belong to a request.
pub open spec fn mismatch(
    state: StateView,
    model: Seq<char>,
    threshold: u64,
    portable: bool,
    fingerprint: Seq<char>,
) -> Option<Seq<char>> {
    if state.model != model {
        Some("model_mismatch"@)
    } else if state.compact_threshold != threshold {
        Some("threshold_mismatch"@)
    } else if !portable && state.semantic_fingerprint != fingerprint {
        Some("semantic_fingerprint_mismatch"@)
    } else {
        None
    }
}

/// How many fragments of the state are replayed and from where on the transcript is sent behind
/// them: all of them where the transcript continues the state, and those before the cutoff where a
/// summary request left its latest items out.
pub open spec fn replay_plan(
    state: StateView,
    conversation: Seq<JsonTree>,
    portable: bool,
) -> Option<(int, int)> {
    match replay::replay_point(state, conversation) {
        Some(at) => Some((state.raw_suffix_json.len() as int, at)),
        None => if portable && exists|cutoff: int|
            replay::is_only_cutoff(state, conversation, cutoff) {
            let cutoff = choose|cutoff: int| replay::is_only_cutoff(state, conversation, cutoff);
            Some((cutoff, conversation.len() - 1))
        } else {
            None
        },
    }
}

/// The items that are sent in place of the input: the envelope, the compaction item, the fragments
/// that are replayed and what the transcript adds.
pub open spec fn wire_items(
    envelope: Seq<ResponsesInputItem>,
    state: StateView,
    conversation: Seq<JsonTree>,
    plan: (int, int),
) -> Seq<Seq<char>> {
    item_texts(envelope).push(state.compaction_item_json) + state.raw_suffix_json.take(plan.0)
        + value_texts(conversation.skip(plan.1))
}

/// Whether every number in the items is one as JSON writes it.
pub open spec fn have_json_numbers(items: Seq<ResponsesInputItem>) -> bool {
    forall|i: int|
        0 <= i < items.len() ==> encoding::has_json_numbers((#[trigger] items[i]).tree())
}

/// Whether the stored state, where there is one, is a valid state of the lane.
pub open spec fn is_of_lane(stored: Option<StateView>, lane_hash: Seq<char>) -> bool {
    stored matches Some(state) ==> state.lane_hash == lane_hash && sidecar::state_fault(
        state,
    ) is None
}

/// What is sent in place of the items of a request that continues a valid state is sound.
proof fn lemma_wire_is_sound(items: Seq<ResponsesInputItem>, state: StateView, plan: (int, int))
    requires
        have_json_numbers(items),
        sidecar::state_fault(state) is None,
        0 <= plan.0 <= state.raw_suffix_json.len(),
        0 <= plan.1 <= conversation_of(items).len(),
    ensures
        sidecar::all_sound(wire_items(envelope_of(items), state, conversation_of(items), plan)),
{
    let envelope = item_texts(envelope_of(items));
    let front = envelope.push(state.compaction_item_json);
    let suffix = state.raw_suffix_json.take(plan.0);
    let length = request::envelope_length(items);
    let wire = wire_items(envelope_of(items), state, conversation_of(items), plan);
    request::lemma_envelope_length(items);
    assert forall|i: int| 0 <= i < wire.len() implies parsing::parsed(#[trigger] wire[i]) is Some
        || parsing::is_encoding(wire[i]) by {
        if i < envelope.len() {
            assert(wire[i] == encoding::encoded(items[i].tree()));
            assert(encoding::has_json_numbers(items[i].tree()));
        } else if i == envelope.len() {
            assert(wire[i] == state.compaction_item_json);
        } else if i < front.len() + suffix.len() {
            let j = i - front.len();
            assert(wire[i] == state.raw_suffix_json[j]);
            sidecar::lemma_fragments_are_sound(state.raw_suffix_json, j);
        } else {
            let j = length + plan.1 + (i - front.len() - suffix.len());
            let value = canonical::canonical(items[j].tree());
            assert(wire[i] == encoding::encoded(value));
            assert(encoding::has_json_numbers(items[j].tree()));
            canonical::lemma_canonical_numbers(items[j].tree());
            assert(encoding::has_json_numbers(value));
        }
    }
}

/// What becomes of the state of a lane when a request is prepared.
pub enum Standing {
    /// There is no state, or it is not to be trusted.
    Absent,
    /// The state is that of another lane.
    ForeignLane,
    /// The state does not belong to the request, for the reason given.
    Stale(Seq<char>),
    /// The request continues the state.
    Continued { state: StateView, plan: (int, int) },
}

/// What becomes of the stored state `stored` of the lane `lane_hash`.
pub open spec fn standing(
    stored: Option<StateView>,
    lane_hash: Seq<char>,
    request: ResponsesRequest,
    threshold: u64,
    portable: bool,
    recovery: bool,
) -> Standing {
    match stored {
        None => Standing::Absent,
        Some(state) => if recovery {
            Standing::Absent
        } else if state.lane_hash != lane_hash {
            Standing::ForeignLane
        } else {
            match mismatch(
                state,
                request.model@,
                threshold,
                portable,
                fingerprint::request_digest(request, envelope_of(request.input@)),
            ) {
                Some(reason) => Standing::Stale(reason),
                None => match replay_plan(state, conversation_of(request.input@), portable) {
                    Some(plan) => Standing::Continued { state, plan },
                    None => Standing::Stale("transcript_mismatch"@),
                },
            }
        },
    }
}

/// Why no earlier state counts, before the stored one is looked at.
pub open spec fn given_reason(portable: bool, recovery: bool) -> Option<Seq<char>> {
    if recovery {
        Some("state_recovery_required"@)
    } else if portable {
        Some("portable_compact_new_lineage"@)
    } else {
        None
    }
}

/// The contents of an optional reason.
pub open spec fn reason_text(reason: Option<&'static str>) -> Option<Seq<char>> {
    match reason {
        Some(reason) => Some(reason@),
        None => None,
    }
}

/// Whether the items sent in place of the input are `items`.
pub open spec fn sends(request: ResponsesRequest, items: Option<Seq<Seq<char>>>) -> bool {
    match (request.raw_input_override, items) {
        (Some(sent), Some(items)) => text::texts(sent@) == items,
        (None, None) => true,
        _ => false,
    }
}

impl PreparedInlineCompaction {
    /// Whether this is what is known of the request `request` itself.
    pub open spec fn describes(
        self,
        request: ResponsesRequest,
        threshold: u64,
        lane_hash: Seq<char>,
        portable: bool,
    ) -> bool {
        &&& self.threshold == threshold
        &&& self.lane_hash@ == lane_hash
        &&& self.state_file@ == lane_hash + ".json"@
        &&& self.model@ == request.model@
        &&& self.semantic_fingerprint@ == fingerprint::request_digest(
            request,
            envelope_of(request.input@),
        )
        &&& self.source_prefix_count == conversation_of(request.input@).len()
        &&& self.source_prefix_sha256@ == transcript::transcript_digest(
            conversation_of(request.input@),
        )
        &&& self.portable_compact_boundary == portable
    }

    /// Whether this continues the state `previous` with the items `pending`, for the reason
    /// `reason`, with the sidecar to be removed or not.
    pub open spec fn stands(
        self,
        previous: Option<StateView>,
        pending: Seq<Seq<char>>,
        reason: Option<Seq<char>>,
        clear: bool,
    ) -> bool {
        &&& sidecar::optional_state(self.previous) == previous
        &&& text::texts(self.pending_input_suffix_json@) == pending
        &&& reason_text(self.state_invalidation_reason) == reason
        &&& self.clear_state == clear
    }
}

/// Demands compaction at `threshold`, and encrypted reasoning in the response.
pub fn demand_compaction(request: &mut ResponsesRequest, threshold: u64)
    ensures
        demands_compaction(*old(request), *final(request), threshold),
        final(request).raw_input_override is None,
{
    broadcast use text::lemma_texts_push;

    request.raw_input_override = None;
    let mut demands: Vec<ResponsesContextManagement> = Vec::new();
    demands.push(ResponsesContextManagement::Compaction { compact_threshold: threshold });
    assert(demands@ =~= seq![
        ResponsesContextManagement::Compaction { compact_threshold: threshold },
    ]);
    request.context_management = Some(demands);
    let mut names = match request.included.take() {
        Some(names) => names,
        None => Vec::new(),
    };
    let ghost held = text::texts(names@);
    let found = lists_text(&names, "reasoning.encrypted_content");
    if !found {
        names.push("reasoning.encrypted_content".to_owned());
    }
    request.included = Some(names);
    assert(match old(request).included {
        Some(names) => text::texts(names@),
        None => Seq::empty(),
    } =~= held);
}

/// The items behind the envelope, as values.
fn conversation_values(items: &Vec<ResponsesInputItem>, envelope_len: usize) -> (values: Vec<Json>)
    requires
        envelope_len == request::envelope_length(items@),
        envelope_len <= items@.len(),
    ensures
        json::trees(values@) == conversation_of(items@),
{
    broadcast use json::lemma_trees_push;

    let ghost held = conversation_of(items@);
    let mut values: Vec<Json> = Vec::new();
    let mut i: usize = envelope_len;
    while i < items.len()
        invariant
            envelope_len <= i <= items@.len(),
            envelope_len == request::envelope_length(items@),
            held == conversation_of(items@),
            json::trees(values@) == held.take(i - envelope_len),
        decreases items@.len() - i,
    {
        values.push(canonical_json(&items[i].to_json()));
        i = i + 1;
        assert(held.take(i - envelope_len) =~= held.take(i - envelope_len - 1).push(
            canonical::canonical(items@[i - 1].tree()),
        ));
    }
    assert(held.take(i - envelope_len) =~= held);
    values
}

/// The encodings of items.
fn serialize_typed_items(items: &[ResponsesInputItem]) -> (texts: Vec<String>)
    ensures
        text::texts(texts@) == item_texts(items@),
{
    broadcast use text::lemma_texts_push;

    let ghost held = item_texts(items@);
    let mut texts: Vec<String> = Vec::new();
    let mut i: usize = 0;
    while i < items.len()
        invariant
            i <= items@.len(),
            held == item_texts(items@),
            text::texts(texts@) == held.take(i as int),
        decreases items@.len() - i,
    {
        texts.push(encode_json(&items[i].to_json()));
        i = i + 1;
        assert(held.take(i as int) =~= held.take(i - 1).push(
            encoding::encoded(items@[i - 1].tree()),
        ));
    }
    assert(held.take(i as int) =~= held);
    texts
}

/// The encodings of the values from position `from` on.
fn serialize_values(values: &Vec<Json>, from: usize) -> (texts: Vec<String>)
    requires
        from <= values@.len(),
    ensures
        text::texts(texts@) == value_texts(json::trees(values@).skip(from as int)),
{
    broadcast use text::lemma_texts_push;

    let ghost held = value_texts(json::trees(values@).skip(from as int));
    let mut texts: Vec<String> = Vec::new();
    let mut i: usize = from;
    while i < values.len()
        invariant
            from <= i <= values@.len(),
            held == value_texts(json::trees(values@).skip(from as int)),
            text::texts(texts@) == held.take(i - from),
        decreases values@.len() - i,
    {
        texts.push(encode_json(&values[i]));
        i = i + 1;
        assert(held.take(i - from) =~= held.take(i - from - 1).push(
            encoding::encoded(values@[i - 1]@),
        ));
    }
    assert(held.take(i - from) =~= held);
    texts
}

/// Why the state does not belong to the request.
fn mismatch_reason(
    state: &SidecarState,
    model: &str,
    threshold: u64,
    portable: bool,
    fingerprint: &str,
) -> (reason: Option<&'static str>)
    ensures
        reason_text(reason) == mismatch(state@, model@, threshold, portable, fingerprint@),
{
    if !same_text(state.model.as_str(), model) {
        Some("model_mismatch")
    } else if state.compact_threshold != threshold {
        Some("threshold_mismatch")
    } else if !portable && !same_text(state.semantic_fingerprint.as_str(), fingerprint) {
        Some("semantic_fingerprint_mismatch")
    } else {
        None
    }
}

/// How many fragments of the state are replayed, and from where on the transcript is sent.
fn find_replay_plan(state: &SidecarState, conversation: &Vec<Json>, portable: bool) -> (plan: Option<
    (usize, usize),
>)
    ensures
        match plan {
            Some((count, start)) => replay_plan(state@, json::trees(conversation@), portable) == Some(
                (count as int, start as int),
            ) && count <= state.raw_suffix_json@.len() && start <= conversation@.len(),
            None => replay_plan(state@, json::trees(conversation@), portable) is None,
        },
{
    match replay_start(state, conversation.as_slice()) {
        Some(start) => Some((state.raw_suffix_json.len(), start)),
        None => if portable {
            let plan = portable_replay_plan(state, conversation.as_slice());
            proof {
                if let Some((cutoff, marker)) = plan {
                    let items = json::trees(conversation@);
                    assert(replay::is_only_cutoff(state@, items, cutoff as int));
                    let chosen = choose|c: int| replay::is_only_cutoff(state@, items, c);
                    assert(replay::is_cutoff(state@, items, chosen));
                }
            }
            plan
        } else {
            None
        },
    }
}

/// The items sent in place of the input when `state` is continued by `pending`.
fn build_wire(
    envelope: Vec<String>,
    state: &SidecarState,
    suffix_count: usize,
    pending: &Vec<String>,
) -> (wire: Vec<String>)
    requires
        suffix_count <= state.raw_suffix_json@.len(),
    ensures
        text::texts(wire@) == text::texts(envelope@).push(state@.compaction_item_json)
            + state@.raw_suffix_json.take(suffix_count as int) + text::texts(pending@),
{
    broadcast use text::lemma_texts_push;

    let ghost front = text::texts(envelope@).push(state@.compaction_item_json);
    let ghost suffix = state@.raw_suffix_json;
    let mut wire = envelope;
    wire.push(state.compaction_item_json.clone());
    let mut i: usize = 0;
    assert(front + suffix.take(0) =~= front);
    while i < suffix_count
        invariant
            i <= suffix_count <= state.raw_suffix_json@.len(),
            suffix == state@.raw_suffix_json,
            text::texts(wire@) == front + suffix.take(i as int),
        decreases suffix_count - i,
    {
        wire.push(state.raw_suffix_json[i].clone());
        i = i + 1;
        assert(front + suffix.take(i as int) =~= (front + suffix.take(i - 1)).push(
            state.raw_suffix_json@[i - 1]@,
        ));
    }
    sidecar::append_texts(&mut wire, pending);
    wire
}

/// Prepares a request of the session `session_id`, whose lane has the stored state `stored`. It
/// fails on no request whose lane has no state or a valid one of its own, where the numbers in its
/// items are numbers as JSON writes them.
pub fn prepare_request(
    config: &InlineCompactionConfig,
    session_id: &str,
    request: &mut ResponsesRequest,
    portable_compact_boundary: bool,
    stored: Option<SidecarState>,
) -> (result: Result<PreparedInlineCompaction, InlineCompactionError>)
    ensures
        demands_compaction(*old(request), *final(request), config.spec_threshold()),
        prepared_for(
            result,
            *final(request),
            config.spec_threshold(),
            digest::text_fingerprint(session_id@),
            portable_compact_boundary,
            false,
            sidecar::optional_state(stored),
        ),
        have_json_numbers(old(request).input@) && is_of_lane(
            sidecar::optional_state(stored),
            digest::text_fingerprint(session_id@),
        ) ==> result is Ok,
{
    prepare_request_with_recovery(
        config,
        session_id,
        request,
        portable_compact_boundary,
        false,
        stored,
    )
}

/// What preparing gives for the request `request`, which already demands compaction.
pub open spec fn prepared_for(
    result: Result<PreparedInlineCompaction, InlineCompactionError>,
    request: ResponsesRequest,
    threshold: u64,
    lane_hash: Seq<char>,
    portable: bool,
    recovery: bool,
    stored: Option<StateView>,
) -> bool {
    let conversation = conversation_of(request.input@);
    let envelope = envelope_of(request.input@);
    let reason = given_reason(portable, recovery);
    match standing(stored, lane_hash, request, threshold, portable, recovery) {
        Standing::Absent => {
            &&& result matches Ok(prepared)
            &&& prepared.describes(request, threshold, lane_hash, portable)
            &&& prepared.stands(None, Seq::empty(), reason, false)
            &&& sends(request, None)
        },
        Standing::ForeignLane => {
            &&& result matches Err(error)
            &&& error.is_invalid_state("sidecar lane fingerprint mismatch"@)
            &&& sends(request, None)
        },
        Standing::Stale(stale) => {
            &&& result matches Ok(prepared)
            &&& prepared.describes(request, threshold, lane_hash, portable)
            &&& prepared.stands(None, Seq::empty(), Some(stale), true)
            &&& sends(request, None)
        },
        Standing::Continued { state, plan } => {
            let wire = wire_items(envelope, state, conversation, plan);
            if sidecar::all_raw(wire) {
                &&& result matches Ok(prepared)
                &&& prepared.describes(request, threshold, lane_hash, portable)
                &&& prepared.stands(
                    Some(state),
                    value_texts(conversation.skip(plan.1)),
                    reason,
                    false,
                )
                &&& sends(request, Some(wire))
            } else {
                &&& result matches Err(error)
                &&& error.is_invalid_state("stored output item is not JSON"@)
                &&& sends(request, None)
            }
        },
    }
}

/// Prepares a request of the session `session_id`, whose lane has the stored state `stored`. A
/// lane that needs recovery does not use its state. It fails on no request whose lane
/// has no state or a valid one of its own, where the numbers in its items are numbers as JSON writes
/// them.
pub fn prepare_request_with_recovery(
    config: &InlineCompactionConfig,
    session_id: &str,
    request: &mut ResponsesRequest,
    portable_compact_boundary: bool,
    recovery_required: bool,
    stored: Option<SidecarState>,
) -> (result: Result<PreparedInlineCompaction, InlineCompactionError>)
    ensures
        demands_compaction(*old(request), *final(request), config.spec_threshold()),
        prepared_for(
            result,
            *final(request),
            config.spec_threshold(),
            digest::text_fingerprint(session_id@),
            portable_compact_boundary,
            recovery_required,
            sidecar::optional_state(stored),
        ),
        have_json_numbers(old(request).input@) && is_of_lane(
            sidecar::optional_state(stored),
            digest::text_fingerprint(session_id@),
        ) ==> result is Ok,
{
    let threshold: u64 = config.threshold();
    demand_compaction(request, threshold);
    let ghost demanded = *request;
    let lane_hash = hash_text(session_id);
    let state_file = concatenated(lane_hash.as_str(), ".json");
    let mut state_invalidation_reason: Option<&'static str> = if portable_compact_boundary {
        Some("portable_compact_new_lineage")
    } else {
        None
    };
    let envelope_len: usize = envelope_size(&request.input);
    let envelope_items = slice_subrange(request.input.as_slice(), 0, envelope_len);
    assert(envelope_items@ =~= envelope_of(request.input@));
    let envelope = serialize_typed_items(envelope_items);
    let semantic_fingerprint = request_fingerprint(request, envelope_items);
    let conversation = conversation_values(&request.input, envelope_len);
    let source_prefix_count: usize = conversation.len();
    let source_prefix_sha256 = hash_transcript(conversation.as_slice());
    let model = request.model.clone();

    let mut previous: Option<SidecarState> = None;
    let mut pending_input_suffix_json: Vec<String> = Vec::new();
    let mut clear_state = false;
    assert(text::texts(pending_input_suffix_json@) =~= Seq::empty());
    if recovery_required {
        state_invalidation_reason = Some("state_recovery_required");
    } else if let Some(state) = stored {
        if !same_text(state.lane_hash.as_str(), lane_hash.as_str()) {
            return Err(InlineCompactionError::InvalidState("sidecar lane fingerprint mismatch"));
        }
        let reason = mismatch_reason(
            &state,
            model.as_str(),
            threshold,
            portable_compact_boundary,
            semantic_fingerprint.as_str(),
        );
        if reason.is_some() {
            clear_state = true;
            state_invalidation_reason = reason;
        } else {
            match find_replay_plan(&state, &conversation, portable_compact_boundary) {
                Some((suffix_count, start)) => {
                    pending_input_suffix_json = serialize_values(&conversation, start);
                    let wire = build_wire(
                        envelope,
                        &state,
                        suffix_count,
                        &pending_input_suffix_json,
                    );
                    proof {
                        if have_json_numbers(request.input@) && sidecar::state_fault(state@) is None {
                            lemma_wire_is_sound(
                                request.input@,
                                state@,
                                (suffix_count as int, start as int),
                            );
                        }
                    }
                    match validate_raw_fragments(&wire) {
                        Ok(_) => {},
                        Err(error) => {
                            return Err(error);
                        },
                    }
                    request.raw_input_override = Some(wire);
                    previous = Some(state);
                },
                None => {
                    clear_state = true;
                    state_invalidation_reason = Some("transcript_mismatch");
                },
            }
        }
    }
    Ok(
        PreparedInlineCompaction {
            threshold,
            state_file,
            lane_hash,
            model,
            semantic_fingerprint,
            source_prefix_count,
            source_prefix_sha256,
            previous,
            pending_input_suffix_json,
            state_invalidation_reason,
            portable_compact_boundary,
            clear_state,
        },
    )
}

}
