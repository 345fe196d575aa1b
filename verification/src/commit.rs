//! Committing a response: what becomes of the state of a lane once the upstream has answered.

use vstd::prelude::*;
use vstd::string::*;

use crate::canonical::canonical_json;
use crate::canonical;
use crate::digest::{hash_raw_fragments, hash_text};
use crate::digest;
use crate::error::InlineCompactionError;
use crate::json::JsonTree;
use crate::prepare::PreparedInlineCompaction;
use crate::prepare;
use crate::recognition::{recognise, Recognition};
use crate::recognition;
use crate::report::{CommitOutcome, CommitReport};
use crate::request::ResponsesInputItem;
use crate::sidecar::{
    append_texts, opaque_payload, validate_state, SidecarState, StateView, SIDECAR_VERSION,
};
use crate::sidecar;
use crate::sse;
use crate::text;
use crate::upstream::{capture_upstream, CapturedRawItem, CapturedUpstream, ItemView};
use crate::upstream;

verus! {

/// What is to be done to the sidecar of a lane.
#[derive(Debug)]
pub enum CommitAction {
    /// It stays as it is, and its size is reported.
    Measure,
    /// There is none, and none is made.
    Nothing,
    /// It is removed.
    Clear,
    /// It is replaced by the state given.
    Write(SidecarState),
}

/// What committing a response comes to: what is to be done to the sidecar, and what is reported
/// once it is done. The size in the report is filled in by [`CommitPlan::finish`].
#[derive(Debug)]
pub struct CommitPlan {
    pub action: CommitAction,
    pub report: CommitReport,
}

/// The output that was visible, as values.
pub open spec fn visible_values(items: Seq<ResponsesInputItem>) -> Seq<JsonTree> {
    Seq::new(items.len(), |i: int| canonical::canonical(items[i].tree()))
}

/// The texts of items.
pub open spec fn raw_texts(items: Seq<ItemView>) -> Seq<Seq<char>> {
    Seq::new(items.len(), |i: int| items[i].raw)
}

/// The revision of a new state: the time, and more than the revision before it as far as there is
/// a greater number.
pub open spec fn revision(previous: Option<u64>, now_ms: u64) -> u64 {
    match previous {
        Some(previous) => if previous < now_ms {
            now_ms
        } else if previous < u64::MAX {
            (previous + 1) as u64
        } else {
            u64::MAX
        },
        None => now_ms,
    }
}

/// The revision of an optional state.
pub open spec fn revision_of(state: Option<StateView>) -> Option<u64> {
    match state {
        Some(state) => Some(state.updated_at_ms),
        None => None,
    }
}

/// The state after a response that compacted: the compaction item at `position` and the items
/// behind it.
pub open spec fn compacted_state(
    prepared: PreparedInlineCompaction,
    items: Seq<ItemView>,
    position: int,
    visible: Seq<ResponsesInputItem>,
    usage: u64,
    now_ms: u64,
) -> StateView {
    let suffix = raw_texts(items.skip(position + 1));
    StateView {
        version: SIDECAR_VERSION,
        lane_hash: prepared.lane_hash@,
        model: prepared.model@,
        semantic_fingerprint: prepared.semantic_fingerprint@,
        compact_threshold: prepared.threshold,
        source_prefix_count: prepared.source_prefix_count,
        source_prefix_sha256: prepared.source_prefix_sha256@,
        last_output_match: recognition::recognitions(visible_values(visible)),
        compaction_item_json: items[position].raw,
        compaction_item_sha256: digest::text_fingerprint(items[position].raw),
        opaque_sha256: digest::text_fingerprint(sidecar::opaque_of(items[position].value)->0),
        raw_suffix_json: suffix,
        raw_suffix_sha256: digest::fragments_fingerprint(suffix),
        usage_input_tokens: usage,
        updated_at_ms: revision(
            revision_of(sidecar::optional_state(prepared.previous)),
            now_ms,
        ),
    }
}

/// The state after a response that did not compact: the state before it, with the items that the
/// request added and those of the response behind it.
pub open spec fn advanced_state(
    previous: StateView,
    prepared: PreparedInlineCompaction,
    items: Seq<ItemView>,
    visible: Seq<ResponsesInputItem>,
    usage: u64,
    now_ms: u64,
) -> StateView {
    let suffix = previous.raw_suffix_json + text::texts(prepared.pending_input_suffix_json@)
        + raw_texts(items);
    StateView {
        source_prefix_count: prepared.source_prefix_count,
        source_prefix_sha256: prepared.source_prefix_sha256@,
        last_output_match: recognition::recognitions(visible_values(visible)),
        raw_suffix_json: suffix,
        raw_suffix_sha256: digest::fragments_fingerprint(suffix),
        usage_input_tokens: usage,
        updated_at_ms: revision(Some(previous.updated_at_ms), now_ms),
        ..previous
    }
}

/// What a response comes to.
pub enum Decision {
    /// The stream is invalid.
    InvalidUpstream(Seq<char>),
    /// The state to be written would be invalid.
    InvalidState(Seq<char>),
    /// The threshold was crossed without a compaction: nothing is inferred and nothing written.
    Anomaly,
    /// A summary was completed: the lineage ends.
    Boundary,
    /// There was no state and there is none.
    NoState,
    /// A new state.
    Write(StateView, CommitOutcome),
}

/// The state to be written, if it is valid.
pub open spec fn write_if_valid(state: StateView, outcome: CommitOutcome) -> Decision {
    match sidecar::state_fault(state) {
        Some(fault) => Decision::InvalidState(fault),
        None => Decision::Write(state, outcome),
    }
}

/// What the response with the events `events` comes to.
pub open spec fn decision(
    prepared: PreparedInlineCompaction,
    events: Seq<Seq<char>>,
    visible: Seq<ResponsesInputItem>,
    now_ms: u64,
) -> Decision {
    let items = upstream::output_items(events);
    let usage = upstream::last_usage(events)->0;
    match upstream::stream_fault(events) {
        Some(fault) => Decision::InvalidUpstream(fault),
        None => if upstream::is_anomalous(events, prepared.threshold) {
            Decision::Anomaly
        } else if prepared.portable_compact_boundary {
            Decision::Boundary
        } else {
            match upstream::last_compaction(items) {
                Some(position) => if sidecar::opaque_of(items[position].value) is None {
                    Decision::InvalidUpstream("compaction item has no opaque payload"@)
                } else {
                    write_if_valid(
                        compacted_state(prepared, items, position, visible, usage, now_ms),
                        if prepared.previous is Some {
                            CommitOutcome::Replaced
                        } else {
                            CommitOutcome::Created
                        },
                    )
                },
                None => match prepared.previous {
                    Some(previous) => write_if_valid(
                        advanced_state(previous@, prepared, items, visible, usage, now_ms),
                        CommitOutcome::Advanced,
                    ),
                    None => Decision::NoState,
                },
            }
        },
    }
}

/// How many fragments the state before the response has.
pub open spec fn previous_suffix_count(prepared: PreparedInlineCompaction) -> nat {
    match prepared.previous {
        Some(previous) => previous.raw_suffix_json@.len(),
        None => 0,
    }
}

impl CommitReport {
    /// Whether the report says what the events `events` and the prepared request say, with the
    /// outcome and the number of fragments given, before the size is filled in.
    pub open spec fn tells(
        self,
        prepared: PreparedInlineCompaction,
        events: Seq<Seq<char>>,
        outcome: CommitOutcome,
        suffix_count: nat,
        anomaly: bool,
    ) -> bool {
        let items = upstream::output_items(events);
        &&& self.outcome == outcome
        &&& self.compaction_count == upstream::compactions(items)
        &&& self.last_item_index == match upstream::last_compaction(items) {
            Some(position) => Some(items[position].index),
            None => None,
        }
        &&& self.suffix_count == suffix_count
        &&& Some(self.usage_input_tokens) == upstream::last_usage(events)
        &&& self.state_bytes == 0
        &&& self.lane_hash@ == prepared.lane_hash@
        &&& prepare::reason_text(self.invalidation_reason) == prepare::reason_text(
            prepared.state_invalidation_reason,
        )
        &&& prepare::reason_text(self.anomaly_reason) == if anomaly {
            Some("threshold_crossed_without_compaction"@)
        } else {
            None
        }
        &&& text::optional_text(self.effective_reasoning_context) == upstream::last_context(events)
    }
}

/// What committing gives for the response with the events `events`.
pub open spec fn planned_for(
    result: Result<CommitPlan, InlineCompactionError>,
    prepared: PreparedInlineCompaction,
    events: Seq<Seq<char>>,
    visible: Seq<ResponsesInputItem>,
    now_ms: u64,
) -> bool {
    match decision(prepared, events, visible, now_ms) {
        Decision::InvalidUpstream(fault) => result matches Err(error)
            && error.is_invalid_upstream(fault),
        Decision::InvalidState(fault) => result matches Err(error) && error.is_invalid_state(fault),
        Decision::Anomaly => {
            &&& result matches Ok(plan)
            &&& plan.action is Measure
            &&& plan.report.tells(
                prepared,
                events,
                if prepared.previous is Some {
                    CommitOutcome::Preserved
                } else {
                    CommitOutcome::NoState
                },
                previous_suffix_count(prepared),
                true,
            )
        },
        Decision::Boundary => {
            &&& result matches Ok(plan)
            &&& plan.action is Clear
            &&& plan.report.tells(prepared, events, CommitOutcome::NoState, 0, false)
        },
        Decision::NoState => {
            &&& result matches Ok(plan)
            &&& plan.action is Nothing
            &&& plan.report.tells(prepared, events, CommitOutcome::NoState, 0, false)
        },
        Decision::Write(state, outcome) => {
            &&& result matches Ok(plan)
            &&& plan.action matches CommitAction::Write(written)
            &&& written@ == state
            &&& plan.report.tells(prepared, events, outcome, state.raw_suffix_json.len(), false)
        },
    }
}

/// The revision of a new state at the time `now_ms`.
pub fn next_revision(previous: Option<&SidecarState>, now_ms: u64) -> (result: u64)
    ensures
        result == revision(
            match previous {
                Some(state) => Some(state.updated_at_ms),
                None => None,
            },
            now_ms,
        ),
{
    match previous {
        Some(state) => {
            let next: u64 = if state.updated_at_ms < u64::MAX {
                state.updated_at_ms + 1
            } else {
                u64::MAX
            };
            if now_ms > next {
                now_ms
            } else {
                next
            }
        },
        None => now_ms,
    }
}

/// By what each item of the output that was visible is recognised.
fn recognise_items(items: &[ResponsesInputItem]) -> (recognitions: Vec<Recognition>)
    ensures
        recognition::views(recognitions@) == recognition::recognitions(visible_values(items@)),
{
    broadcast use recognition::lemma_views_push;

    let ghost held = recognition::recognitions(visible_values(items@));
    let mut recognitions: Vec<Recognition> = Vec::new();
    let mut i: usize = 0;
    while i < items.len()
        invariant
            i <= items@.len(),
            held == recognition::recognitions(visible_values(items@)),
            recognition::views(recognitions@) == held.take(i as int),
        decreases items@.len() - i,
    {
        recognitions.push(recognise(&canonical_json(&items[i].to_json())));
        i = i + 1;
        assert(held.take(i as int) =~= held.take(i - 1).push(held[i - 1]));
    }
    assert(held.take(i as int) =~= held);
    recognitions
}

/// The texts of the items from position `from` on.
fn raw_texts_from(items: &Vec<CapturedRawItem>, from: usize) -> (texts: Vec<String>)
    requires
        from <= items@.len(),
    ensures
        text::texts(texts@) == raw_texts(upstream::item_views(items@).skip(from as int)),
{
    broadcast use text::lemma_texts_push;

    let ghost held = raw_texts(upstream::item_views(items@).skip(from as int));
    let mut texts: Vec<String> = Vec::new();
    let mut i: usize = from;
    while i < items.len()
        invariant
            from <= i <= items@.len(),
            held == raw_texts(upstream::item_views(items@).skip(from as int)),
            text::texts(texts@) == held.take(i - from),
        decreases items@.len() - i,
    {
        texts.push(items[i].raw.clone());
        i = i + 1;
        assert(held.take(i - from) =~= held.take(i - from - 1).push(items@[i - 1].raw@));
    }
    assert(held.take(i - from) =~= held);
    texts
}

/// The state after a response that compacted.
fn make_compacted_state(
    prepared: &PreparedInlineCompaction,
    captured: &CapturedUpstream,
    position: usize,
    opaque: &str,
    last_output_match: Vec<Recognition>,
    now_ms: u64,
) -> (state: SidecarState)
    requires
        position < captured.items@.len(),
        sidecar::opaque_of(captured.items@[position as int].value@) == Some(opaque@),
    ensures
        forall|visible: Seq<ResponsesInputItem>|
            recognition::views(last_output_match@) == recognition::recognitions(
                #[trigger] visible_values(visible),
            ) ==> state@
                == compacted_state(
                *prepared,
                upstream::item_views(captured.items@),
                position as int,
                visible,
                captured.usage_input_tokens,
                now_ms,
            ),
{
    let compaction = &captured.items[position];
    assert(position < captured.items.len());
    let raw_suffix_json = raw_texts_from(&captured.items, position + 1);
    SidecarState {
        version: SIDECAR_VERSION,
        lane_hash: prepared.lane_hash.clone(),
        model: prepared.model.clone(),
        semantic_fingerprint: prepared.semantic_fingerprint.clone(),
        compact_threshold: prepared.threshold,
        source_prefix_count: prepared.source_prefix_count,
        source_prefix_sha256: prepared.source_prefix_sha256.clone(),
        last_output_match,
        compaction_item_json: compaction.raw.clone(),
        compaction_item_sha256: hash_text(compaction.raw.as_str()),
        opaque_sha256: hash_text(opaque),
        raw_suffix_sha256: hash_raw_fragments(&raw_suffix_json),
        raw_suffix_json,
        usage_input_tokens: captured.usage_input_tokens,
        updated_at_ms: next_revision(prepared.previous.as_ref(), now_ms),
    }
}

/// The state after a response that did not compact.
fn make_advanced_state(
    previous: &SidecarState,
    prepared: &PreparedInlineCompaction,
    captured: &CapturedUpstream,
    last_output_match: Vec<Recognition>,
    now_ms: u64,
) -> (state: SidecarState)
    ensures
        forall|visible: Seq<ResponsesInputItem>|
            recognition::views(last_output_match@) == recognition::recognitions(
                #[trigger] visible_values(visible),
            ) ==> state@
                == advanced_state(
                previous@,
                *prepared,
                upstream::item_views(captured.items@),
                visible,
                captured.usage_input_tokens,
                now_ms,
            ),
{
    let mut state = previous.clone();
    append_texts(&mut state.raw_suffix_json, &prepared.pending_input_suffix_json);
    let raws = raw_texts_from(&captured.items, 0);
    assert(upstream::item_views(captured.items@).skip(0) =~= upstream::item_views(captured.items@));
    append_texts(&mut state.raw_suffix_json, &raws);
    state.raw_suffix_sha256 = hash_raw_fragments(&state.raw_suffix_json);
    state.source_prefix_count = prepared.source_prefix_count;
    state.source_prefix_sha256 = prepared.source_prefix_sha256.clone();
    state.last_output_match = last_output_match;
    state.usage_input_tokens = captured.usage_input_tokens;
    state.updated_at_ms = next_revision(Some(previous), now_ms);
    state
}

/// The report on a response, before the size is filled in.
fn make_report(
    prepared: &PreparedInlineCompaction,
    captured: CapturedUpstream,
    outcome: CommitOutcome,
    suffix_count: usize,
) -> (report: CommitReport)
    ensures
        forall|events: Seq<Seq<char>>|
            #![trigger captured.says(events, prepared.threshold)]
            captured.says(events, prepared.threshold) ==> report.tells(
                *prepared,
                events,
                outcome,
                suffix_count as nat,
                upstream::is_anomalous(events, prepared.threshold),
            ),
{
    CommitReport {
        outcome,
        compaction_count: captured.compaction_count,
        last_item_index: captured.last_compaction_item_index,
        suffix_count,
        usage_input_tokens: captured.usage_input_tokens,
        state_bytes: 0,
        lane_hash: prepared.lane_hash.clone(),
        invalidation_reason: prepared.state_invalidation_reason,
        anomaly_reason: captured.anomaly_reason,
        effective_reasoning_context: captured.effective_reasoning_context,
    }
}

/// Plans what the response `upstream_sse` to a prepared request comes to at the time `now_ms`.
/// `visible_output_items` is the output as the next request will echo it.
pub fn commit_response_report(
    prepared: &PreparedInlineCompaction,
    upstream_sse: &[u8],
    visible_output_items: &[ResponsesInputItem],
    now_ms: u64,
) -> (result: Result<CommitPlan, InlineCompactionError>)
    ensures
        planned_for(
            result,
            *prepared,
            upstream::events_of(upstream_sse@),
            visible_output_items@,
            now_ms,
        ),
        vstd::utf8::valid_utf8(upstream_sse@) ==> sse::lossy_text(upstream_sse@)
            == vstd::utf8::decode_utf8(upstream_sse@),
{
    let ghost events = upstream::events_of(upstream_sse@);
    let captured = match capture_upstream(upstream_sse, prepared.threshold) {
        Ok(captured) => captured,
        Err(error) => {
            return Err(error);
        },
    };
    if captured.anomaly_reason.is_some() {
        let (outcome, suffix_count) = match &prepared.previous {
            Some(previous) => (CommitOutcome::Preserved, previous.raw_suffix_json.len()),
            None => (CommitOutcome::NoState, 0usize),
        };
        let report = make_report(prepared, captured, outcome, suffix_count);
        return Ok(CommitPlan { action: CommitAction::Measure, report });
    }
    if prepared.portable_compact_boundary {
        let report = make_report(prepared, captured, CommitOutcome::NoState, 0);
        return Ok(CommitPlan { action: CommitAction::Clear, report });
    }
    let last_output_match = recognise_items(visible_output_items);
    let (state, outcome) = match captured.compaction_position {
        Some(position) => {
            proof {
                upstream::law_last_compaction_is_the_last(upstream::output_items(events));
                assert(upstream::item_views(captured.items@)[position as int]
                    == captured.items@[position as int]@);
            }
            let opaque = match opaque_payload(&captured.items[position].value) {
                Some(opaque) => opaque,
                None => {
                    return Err(
                        InlineCompactionError::InvalidUpstream(
                            "compaction item has no opaque payload",
                        ),
                    );
                },
            };
            let state = make_compacted_state(
                prepared,
                &captured,
                position,
                opaque.as_str(),
                last_output_match,
                now_ms,
            );
            let outcome = if prepared.previous.is_some() {
                CommitOutcome::Replaced
            } else {
                CommitOutcome::Created
            };
            (state, outcome)
        },
        None => match &prepared.previous {
            Some(previous) => (
                make_advanced_state(previous, prepared, &captured, last_output_match, now_ms),
                CommitOutcome::Advanced,
            ),
            None => {
                let report = make_report(prepared, captured, CommitOutcome::NoState, 0);
                return Ok(CommitPlan { action: CommitAction::Nothing, report });
            },
        },
    };
    match validate_state(&state) {
        Ok(_) => {},
        Err(error) => {
            return Err(error);
        },
    }
    let suffix_count: usize = state.raw_suffix_json.len();
    let report = make_report(prepared, captured, outcome, suffix_count);
    Ok(CommitPlan { action: CommitAction::Write(state), report })
}

impl CommitPlan {
    /// The size that is reported once the plan has been carried out, where the sidecar has the size
    /// `state_bytes`.
    pub open spec fn reported_bytes(self, state_bytes: u64) -> u64 {
        if self.action is Measure || self.action is Write {
            state_bytes
        } else {
            self.report.state_bytes
        }
    }

    /// The report once the plan has been carried out, with the size of the sidecar that was
    /// written or left as it is.
    pub fn finish(self, state_bytes: u64) -> (report: CommitReport)
        ensures
            report == (CommitReport {
                state_bytes: if self.action is Measure || self.action is Write {
                    state_bytes
                } else {
                    self.report.state_bytes
                },
                ..self.report
            }),
            report.state_bytes == self.reported_bytes(state_bytes),
    {
        let mut report = self.report;
        match self.action {
            CommitAction::Measure => {
                report.state_bytes = state_bytes;
            },
            CommitAction::Write(_) => {
                report.state_bytes = state_bytes;
            },
            _ => {},
        }
        report
    }
}

}
