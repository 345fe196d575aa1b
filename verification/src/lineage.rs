//! Laws that hold from one request of a lane to the next.

use vstd::prelude::*;

use crate::canonical;
use crate::commit::CommitPlan;
use crate::commit;
use crate::digest;
use crate::encoding;
use crate::error::InlineCompactionError;
use crate::fingerprint;
use crate::json::{JsonTree, MemberTree};
use crate::json;
use crate::parsing;
use crate::prepare::{PreparedInlineCompaction, Standing};
use crate::prepare;
use crate::recognition::RecognitionView;
use crate::recognition;
use crate::replay;
use crate::report::CommitOutcome;
use crate::request::{ResponsesInputItem, ResponsesRequest};
use crate::request;
use crate::sidecar::StateView;
use crate::sidecar;
use crate::transcript;
use crate::upstream;

verus! {

/// Whether an item that is a function call has its arguments as a text.
pub open spec fn has_textual_arguments(item: JsonTree) -> bool {
    transcript::is_kind(item, "function_call"@) ==> item.text_at("arguments"@) is Some
}

/// An item is recognised when it is echoed unchanged, unless it is a function call whose arguments
/// are no text.
pub proof fn law_item_is_recognised(item: JsonTree)
    requires
        has_textual_arguments(item),
    ensures
        recognition::recognises(recognition::recognition(item), item),
{
}

/// A function call of a request is recognised when it is echoed unchanged.
pub proof fn law_function_call_is_recognised(item: ResponsesInputItem)
    requires
        item is FunctionCall,
    ensures
        recognition::recognises(
            recognition::recognition(canonical::canonical(item.tree())),
            canonical::canonical(item.tree()),
        ),
{
    let members = item.tree()->Object_0;
    canonical::lemma_get_canonical(members, "arguments"@);
    assert(members.last().key == "arguments"@);
    law_item_is_recognised(canonical::canonical(item.tree()));
}

/// Whether an output can be recognised when it is echoed: it is empty or holds more than
/// reasoning, and its function calls have textual arguments.
pub open spec fn is_recognisable(output: Seq<JsonTree>) -> bool {
    &&& output.len() == 0 || replay::has_anchor(recognition::recognitions(output))
    &&& forall|i: int| 0 <= i < output.len() ==> has_textual_arguments(#[trigger] output[i])
}

/// Whether `echo` has the items of `output`, each as it was or in another form of it.
pub open spec fn echoes(echo: Seq<JsonTree>, output: Seq<JsonTree>) -> bool {
    &&& echo.len() == output.len()
    &&& forall|i: int|
        0 <= i < output.len() ==> transcript::items_match(#[trigger] output[i], echo[i])
}

/// An echo of the expected items leads behind them.
proof fn lemma_echo(
    front: Seq<JsonTree>,
    output: Seq<JsonTree>,
    echo: Seq<JsonTree>,
    tail: Seq<JsonTree>,
    done: int,
)
    requires
        0 <= done <= output.len() == echo.len(),
        forall|i: int|
            0 <= i < output.len() ==> recognition::recognises(
                recognition::recognition(#[trigger] output[i]),
                echo[i],
            ),
    ensures
        replay::behind_expected(
            recognition::recognitions(output).skip(done),
            front + echo + tail,
            (front.len() + done) as int,
        ) == Some((front.len() + output.len()) as int),
    decreases output.len() - done,
{
    let expected = recognition::recognitions(output);
    let rest = expected.skip(done);
    if done < output.len() {
        assert(rest[0] == recognition::recognition(output[done]));
        assert((front + echo + tail)[front.len() + done] == echo[done]);
        assert(recognition::recognises(recognition::recognition(output[done]), echo[done]));
        assert(rest.drop_first() =~= expected.skip(done + 1));
        lemma_echo(front, output, echo, tail, done + 1);
    }
}

/// A transcript that begins with the items that a state was made for and echoes the output that it
/// recognises continues behind them: each item as it was, or in another form of the same item.
pub proof fn law_echo_continues(
    state: StateView,
    front: Seq<JsonTree>,
    output: Seq<JsonTree>,
    echo: Seq<JsonTree>,
    tail: Seq<JsonTree>,
)
    requires
        state.source_prefix_count == front.len(),
        state.source_prefix_sha256 == transcript::transcript_digest(front),
        state.last_output_match == recognition::recognitions(output),
        is_recognisable(output),
        echoes(echo, output),
    ensures
        replay::replay_point(state, front + echo + tail) == Some(
            (front.len() + output.len()) as int,
        ),
{
    assert((front + echo + tail).take(front.len() as int) =~= front);
    assert forall|i: int| 0 <= i < output.len() implies recognition::recognises(
        recognition::recognition(#[trigger] output[i]),
        echo[i],
    ) by {
        assert(has_textual_arguments(output[i]));
        recognition::law_same_items_are_recognised(output[i], echo[i]);
    }
    lemma_echo(front, output, echo, tail, 0);
    assert(recognition::recognitions(output).skip(0) =~= recognition::recognitions(output));
}

/// A transcript that begins with the items that a state was made for and echoes the output that it
/// recognises unchanged continues behind them.
pub proof fn law_exact_echo_continues(
    state: StateView,
    front: Seq<JsonTree>,
    output: Seq<JsonTree>,
    tail: Seq<JsonTree>,
)
    requires
        state.source_prefix_count == front.len(),
        state.source_prefix_sha256 == transcript::transcript_digest(front),
        state.last_output_match == recognition::recognitions(output),
        is_recognisable(output),
    ensures
        replay::replay_point(state, front + output + tail) == Some(
            (front.len() + output.len()) as int,
        ),
{
    assert((front + output + tail).take(front.len() as int) =~= front);
    assert forall|i: int| 0 <= i < output.len() implies recognition::recognises(
        recognition::recognition(#[trigger] output[i]),
        output[i],
    ) by {
        assert(has_textual_arguments(output[i]));
    }
    lemma_echo(front, output, output, tail, 0);
    assert(recognition::recognitions(output).skip(0) =~= recognition::recognitions(output));
}

/// The items that are not reasoning.
pub open spec fn without_reasoning(items: Seq<JsonTree>) -> Seq<JsonTree>
    decreases items.len(),
{
    if items.len() == 0 {
        Seq::empty()
    } else if replay::is_reasoning(items[0]) {
        without_reasoning(items.drop_first())
    } else {
        seq![items[0]] + without_reasoning(items.drop_first())
    }
}

/// An echo of the expected items without their reasoning leads behind them.
proof fn lemma_echo_without_reasoning(
    front: Seq<JsonTree>,
    output: Seq<JsonTree>,
    tail: Seq<JsonTree>,
)
    requires
        forall|i: int| 0 <= i < output.len() ==> has_textual_arguments(#[trigger] output[i]),
        tail.len() > 0 ==> !replay::is_reasoning(tail[0]),
    ensures
        replay::behind_expected(
            recognition::recognitions(output),
            front + without_reasoning(output) + tail,
            front.len() as int,
        ) == Some((front.len() + without_reasoning(output).len()) as int),
    decreases output.len(),
{
    let expected = recognition::recognitions(output);
    let echo = without_reasoning(output);
    let transcript = front + echo + tail;
    let at = front.len() as int;
    if output.len() > 0 {
        let rest = output.drop_first();
        assert forall|i: int| 0 <= i < rest.len() implies has_textual_arguments(
            #[trigger] rest[i],
        ) by {
            assert(rest[i] == output[i + 1]);
        }
        assert(expected.drop_first() =~= recognition::recognitions(rest));
        assert(expected[0] == recognition::recognition(output[0]));
        if replay::is_reasoning(output[0]) {
            lemma_no_leading_reasoning(rest);
            if at < transcript.len() {
                if echo.len() > 0 {
                    assert(transcript[at] == echo[0]);
                } else {
                    assert(transcript[at] == tail[0]);
                }
            }
            lemma_echo_without_reasoning(front, rest, tail);
        } else {
            assert(has_textual_arguments(output[0]));
            law_item_is_recognised(output[0]);
            assert(transcript[at] == output[0]);
            let longer = front.push(output[0]);
            lemma_echo_without_reasoning(longer, rest, tail);
            assert(longer + without_reasoning(rest) + tail =~= transcript);
        }
    }
}

/// What is left without reasoning does not begin with reasoning.
proof fn lemma_no_leading_reasoning(items: Seq<JsonTree>)
    ensures
        without_reasoning(items).len() > 0 ==> !replay::is_reasoning(without_reasoning(items)[0]),
    decreases items.len(),
{
    if items.len() > 0 && replay::is_reasoning(items[0]) {
        lemma_no_leading_reasoning(items.drop_first());
    }
}

/// A transcript that leaves out the reasoning of the output that a state recognises continues
/// behind the rest of it all the same.
pub proof fn law_echo_without_reasoning_continues(
    state: StateView,
    front: Seq<JsonTree>,
    output: Seq<JsonTree>,
    tail: Seq<JsonTree>,
)
    requires
        state.source_prefix_count == front.len(),
        state.source_prefix_sha256 == transcript::transcript_digest(front),
        state.last_output_match == recognition::recognitions(output),
        is_recognisable(output),
        tail.len() > 0 ==> !replay::is_reasoning(tail[0]),
    ensures
        replay::replay_point(state, front + without_reasoning(output) + tail) == Some(
            (front.len() + without_reasoning(output).len()) as int,
        ),
{
    let echo = without_reasoning(output);
    assert((front + echo + tail).take(front.len() as int) =~= front);
    lemma_echo_without_reasoning(front, output, tail);
}

/// An output of reasoning alone is no proof of delivery: the state is not continued.
pub proof fn law_reasoning_alone_anchors_nothing(state: StateView, conversation: Seq<JsonTree>)
    requires
        state.last_output_match.len() > 0,
        forall|i: int|
            0 <= i < state.last_output_match.len() ==> replay::expects_reasoning(
                #[trigger] state.last_output_match[i],
            ),
    ensures
        replay::replay_point(state, conversation) is None,
{
}

/// Whether the state that a prepared request continues is one of its own lane, its own model, its
/// own threshold and, outside a summary request, its own meaning.
pub open spec fn keeps_lineage(prepared: PreparedInlineCompaction) -> bool {
    prepared.previous matches Some(previous) ==> {
        &&& previous@.lane_hash == prepared.lane_hash@
        &&& previous@.model == prepared.model@
        &&& previous@.compact_threshold == prepared.threshold
        &&& prepared.portable_compact_boundary || previous@.semantic_fingerprint
            == prepared.semantic_fingerprint@
    }
}

/// A prepared request continues nothing but a state of its own lineage.
pub proof fn law_prepared_keeps_lineage(
    prepared: PreparedInlineCompaction,
    request: ResponsesRequest,
    threshold: u64,
    lane_hash: Seq<char>,
    portable: bool,
    recovery: bool,
    stored: Option<StateView>,
)
    requires
        prepare::prepared_for(
            Ok::<PreparedInlineCompaction, InlineCompactionError>(prepared),
            request,
            threshold,
            lane_hash,
            portable,
            recovery,
            stored,
        ),
    ensures
        keeps_lineage(prepared),
        recovery ==> prepared.previous is None,
        prepared.previous matches Some(previous) ==> stored == Some(previous@),
{
}

/// The state after a response belongs to the lane, the model, the threshold and the meaning of the
/// request, and records its transcript and by what the output that was visible is recognised.
pub proof fn law_written_state_is_that_of_the_request(
    prepared: PreparedInlineCompaction,
    events: Seq<Seq<char>>,
    visible: Seq<ResponsesInputItem>,
    now_ms: u64,
)
    requires
        keeps_lineage(prepared),
        commit::decision(prepared, events, visible, now_ms) is Write,
    ensures
        ({
            let state = commit::decision(prepared, events, visible, now_ms)->Write_0;
            &&& sidecar::state_fault(state) is None
            &&& state.lane_hash == prepared.lane_hash@
            &&& state.model == prepared.model@
            &&& state.compact_threshold == prepared.threshold
            &&& state.semantic_fingerprint == prepared.semantic_fingerprint@
            &&& state.source_prefix_count == prepared.source_prefix_count
            &&& state.source_prefix_sha256 == prepared.source_prefix_sha256@
            &&& state.last_output_match == recognition::recognitions(
                commit::visible_values(visible),
            )
        }),
{
}

/// Once a response has been committed, the next request of the lane that keeps its meaning, echoes
/// the visible output and adds the items `tail` continues the state: it sends its envelope, the
/// compaction item, every fragment behind it exactly as it came, and the encodings of `tail`.
pub proof fn law_next_request_continues(
    prepared: PreparedInlineCompaction,
    first: ResponsesRequest,
    events: Seq<Seq<char>>,
    visible: Seq<ResponsesInputItem>,
    now_ms: u64,
    next: ResponsesRequest,
    tail: Seq<JsonTree>,
)
    requires
        keeps_lineage(prepared),
        prepared.describes(first, prepared.threshold, prepared.lane_hash@, false),
        commit::decision(prepared, events, visible, now_ms) is Write,
        is_recognisable(commit::visible_values(visible)),
        next.model@ == first.model@,
        fingerprint::request_digest(next, prepare::envelope_of(next.input@))
            == fingerprint::request_digest(first, prepare::envelope_of(first.input@)),
        prepare::conversation_of(next.input@) == prepare::conversation_of(first.input@)
            + commit::visible_values(visible) + tail,
    ensures
        ({
            let state = commit::decision(prepared, events, visible, now_ms)->Write_0;
            let start = prepare::conversation_of(first.input@).len() + visible.len();
            let plan = (state.raw_suffix_json.len() as int, start as int);
            let envelope = prepare::envelope_of(next.input@);
            &&& prepare::standing(
                Some(state),
                prepared.lane_hash@,
                next,
                prepared.threshold,
                false,
                false,
            ) == Standing::Continued { state, plan }
            &&& prepare::wire_items(
                envelope,
                state,
                prepare::conversation_of(next.input@),
                plan,
            ) == prepare::item_texts(envelope).push(state.compaction_item_json)
                + state.raw_suffix_json + prepare::value_texts(tail)
        }),
{
    let state = commit::decision(prepared, events, visible, now_ms)->Write_0;
    let front = prepare::conversation_of(first.input@);
    let output = commit::visible_values(visible);
    let conversation = prepare::conversation_of(next.input@);
    law_written_state_is_that_of_the_request(prepared, events, visible, now_ms);
    law_exact_echo_continues(state, front, output, tail);
    assert(conversation.skip((front.len() + output.len()) as int) =~= tail);
    assert(state.raw_suffix_json.take(state.raw_suffix_json.len() as int)
        =~= state.raw_suffix_json);
}

/// The envelope of a request with an item behind it stays the same when items are added.
proof fn lemma_envelope_stays(items: Seq<ResponsesInputItem>, added: Seq<ResponsesInputItem>)
    requires
        request::envelope_length(items) < items.len(),
    ensures
        request::envelope_length(items + added) == request::envelope_length(items),
    decreases items.len(),
{
    assert((items + added)[0] == items[0]);
    if items[0].in_envelope() {
        assert((items + added).drop_first() =~= items.drop_first() + added);
        lemma_envelope_stays(items.drop_first(), added);
    }
}

/// Items that are added to a request with a conversation go to its conversation, and its envelope
/// stays.
pub proof fn law_added_items_extend_the_conversation(
    items: Seq<ResponsesInputItem>,
    added: Seq<ResponsesInputItem>,
)
    requires
        prepare::conversation_of(items).len() > 0,
    ensures
        prepare::envelope_of(items + added) == prepare::envelope_of(items),
        prepare::conversation_of(items + added) == prepare::conversation_of(items)
            + commit::visible_values(added),
{
    request::lemma_envelope_length(items);
    lemma_envelope_stays(items, added);
    assert(prepare::envelope_of(items + added) =~= prepare::envelope_of(items));
    assert(prepare::conversation_of(items + added) =~= prepare::conversation_of(items)
        + commit::visible_values(added));
}

/// Once a response has been committed, the next request of the lane that repeats the items of the
/// request, echoes the visible output and adds the items `added` is prepared with the state that
/// was committed: it sends its envelope, the compaction item, every fragment behind it exactly as it
/// came, and the encodings of `added`, and the sidecar stays.
pub proof fn law_next_request_replays_the_state(
    prepared: PreparedInlineCompaction,
    first: ResponsesRequest,
    events: Seq<Seq<char>>,
    visible: Seq<ResponsesInputItem>,
    now_ms: u64,
    next: ResponsesRequest,
    added: Seq<ResponsesInputItem>,
    result: PreparedInlineCompaction,
)
    requires
        keeps_lineage(prepared),
        prepared.describes(first, prepared.threshold, prepared.lane_hash@, false),
        commit::decision(prepared, events, visible, now_ms) is Write,
        is_recognisable(commit::visible_values(visible)),
        prepare::conversation_of(first.input@).len() > 0,
        next.input@ == first.input@ + visible + added,
        next.model@ == first.model@,
        fingerprint::request_digest(next, prepare::envelope_of(first.input@))
            == fingerprint::request_digest(first, prepare::envelope_of(first.input@)),
        prepare::prepared_for(
            Ok::<PreparedInlineCompaction, InlineCompactionError>(result),
            next,
            prepared.threshold,
            prepared.lane_hash@,
            false,
            false,
            Some(commit::decision(prepared, events, visible, now_ms)->Write_0),
        ),
    ensures
        ({
            let state = commit::decision(prepared, events, visible, now_ms)->Write_0;
            &&& sidecar::optional_state(result.previous) == Some(state)
            &&& !result.clear_state
            &&& prepare::sends(
                next,
                Some(
                    prepare::item_texts(prepare::envelope_of(first.input@)).push(
                        state.compaction_item_json,
                    ) + state.raw_suffix_json + prepare::value_texts(
                        commit::visible_values(added),
                    ),
                ),
            )
        }),
{
    let tail = commit::visible_values(added);
    law_added_items_extend_the_conversation(first.input@, visible);
    law_added_items_extend_the_conversation(first.input@ + visible, added);
    law_next_request_continues(prepared, first, events, visible, now_ms, next, tail);
}

/// A valid state holds one compaction item: no fragment behind it is another, and each is a JSON
/// value that is complete for its type.
pub proof fn law_valid_state_has_one_compaction(state: StateView)
    requires
        sidecar::state_fault(state) is None,
    ensures
        parsing::parsed(state.compaction_item_json) matches Some(item) && transcript::is_kind(
            item,
            "compaction"@,
        ),
        forall|i: int|
            0 <= i < state.raw_suffix_json.len() ==> (parsing::parsed(
                #[trigger] state.raw_suffix_json[i],
            ) matches Some(item) && !transcript::is_kind(item, "compaction"@)
                && sidecar::is_complete(item)),
{
    assert forall|i: int| 0 <= i < state.raw_suffix_json.len() implies (parsing::parsed(
        #[trigger] state.raw_suffix_json[i],
    ) matches Some(item) && !transcript::is_kind(item, "compaction"@) && sidecar::is_complete(
        item,
    )) by {
        sidecar::lemma_fragments_are_sound(state.raw_suffix_json, i);
    }
}

/// A response that crossed the threshold without a compaction leaves the sidecar as it is, and a
/// completed summary removes it: neither writes.
pub proof fn law_anomalies_and_boundaries_write_nothing(
    plan: CommitPlan,
    prepared: PreparedInlineCompaction,
    events: Seq<Seq<char>>,
    visible: Seq<ResponsesInputItem>,
    now_ms: u64,
)
    requires
        commit::planned_for(
            Ok::<CommitPlan, InlineCompactionError>(plan),
            prepared,
            events,
            visible,
            now_ms,
        ),
    ensures
        upstream::is_anomalous(events, prepared.threshold) ==> plan.action is Measure
            && !plan.report.outcome.wrote_state(),
        !upstream::is_anomalous(events, prepared.threshold) && prepared.portable_compact_boundary
            ==> plan.action is Clear && !plan.report.outcome.wrote_state(),
        plan.action is Write <==> plan.report.outcome.wrote_state(),
{
}

/// A new state has a greater revision than the one it follows, as long as there is a greater one.
pub proof fn law_revisions_increase(
    prepared: PreparedInlineCompaction,
    events: Seq<Seq<char>>,
    visible: Seq<ResponsesInputItem>,
    now_ms: u64,
)
    requires
        commit::decision(prepared, events, visible, now_ms) is Write,
        prepared.previous is Some,
        prepared.previous->0.updated_at_ms < u64::MAX,
    ensures
        commit::decision(prepared, events, visible, now_ms)->Write_0.updated_at_ms
            > prepared.previous->0.updated_at_ms,
{
}

/// What came before the latest compaction leaves no trace: streams that agree from it on give the
/// same state.
pub proof fn law_only_the_latest_compaction_counts(
    prepared: PreparedInlineCompaction,
    a: Seq<upstream::ItemView>,
    b: Seq<upstream::ItemView>,
    latest: Seq<upstream::ItemView>,
    visible: Seq<ResponsesInputItem>,
    usage: u64,
    now_ms: u64,
)
    requires
        latest.len() > 0,
        upstream::is_compaction(latest[0]),
        forall|i: int| 0 < i < latest.len() ==> !upstream::is_compaction(#[trigger] latest[i]),
    ensures
        upstream::last_compaction(a + latest) == Some(a.len() as int),
        upstream::last_compaction(b + latest) == Some(b.len() as int),
        commit::compacted_state(
            prepared,
            a + latest,
            a.len() as int,
            visible,
            usage,
            now_ms,
        ) == commit::compacted_state(
            prepared,
            b + latest,
            b.len() as int,
            visible,
            usage,
            now_ms,
        ),
{
    lemma_last_compaction_behind(a, latest);
    lemma_last_compaction_behind(b, latest);
    assert((a + latest).skip(a.len() as int + 1) =~= latest.skip(1));
    assert((b + latest).skip(b.len() as int + 1) =~= latest.skip(1));
}

/// The last compaction is the first item of `latest` where that is one and no later item is.
proof fn lemma_last_compaction_behind(
    front: Seq<upstream::ItemView>,
    latest: Seq<upstream::ItemView>,
)
    requires
        latest.len() > 0,
        upstream::is_compaction(latest[0]),
        forall|i: int| 0 < i < latest.len() ==> !upstream::is_compaction(#[trigger] latest[i]),
    ensures
        upstream::last_compaction(front + latest) == Some(front.len() as int),
{
    let items = front + latest;
    upstream::law_last_compaction_is_the_last(items);
    assert(items[front.len() as int] == latest[0]);
    if let Some(position) = upstream::last_compaction(items) {
        if position > front.len() {
            assert(items[position] == latest[position - front.len()]);
        }
    }
}

/// The fingerprint of a request does not depend on its conversation, its cache key, the git status
/// in its instructions, or the controls that may change from turn to turn.
pub proof fn law_fingerprint_ignores_turn_controls(
    a: ResponsesRequest,
    b: ResponsesRequest,
    envelope: Seq<ResponsesInputItem>,
)
    requires
        a.model == b.model,
        fingerprint::stable_tree(a.instructions) == fingerprint::stable_tree(b.instructions),
        a.tools == b.tools,
        a.store == b.store,
        a.stream == b.stream,
        a.included == b.included,
        a.client_metadata == b.client_metadata,
        a.service_tier == b.service_tier,
        a.reasoning == b.reasoning,
        a.context_management == b.context_management,
    ensures
        fingerprint::request_digest(a, envelope) == fingerprint::request_digest(b, envelope),
{
}

/// A state is continued only in its own lane, and never in a lane that needs recovery.
pub proof fn law_states_stay_in_their_lane(
    stored: Option<StateView>,
    lane_hash: Seq<char>,
    request: ResponsesRequest,
    threshold: u64,
    portable: bool,
    recovery: bool,
)
    requires
        prepare::standing(stored, lane_hash, request, threshold, portable, recovery) is Continued,
    ensures
        !recovery,
        stored matches Some(state) && state.lane_hash == lane_hash,
{
}

/// An edit whose `replace_all` was left out has the same arguments as one that says `false`.
pub proof fn law_edit_default_is_false(omitted: Seq<MemberTree>, explicit: Seq<MemberTree>)
    requires
        canonical::strictly_ordered(omitted),
        json::lookup(omitted, "file_path"@) is Some,
        json::lookup(omitted, "old_string"@) is Some,
        json::lookup(omitted, "new_string"@) is Some,
        json::lookup(omitted, "replace_all"@) is None,
        json::lookup(explicit, "replace_all"@) == Some(JsonTree::Bool(false)),
        forall|key: Seq<char>|
            key != "replace_all"@ ==> #[trigger] json::lookup(omitted, key) == json::lookup(
                explicit,
                key,
            ),
    ensures
        transcript::arguments_form("Edit"@, JsonTree::Object(omitted))
            == transcript::arguments_form("Edit"@, JsonTree::Object(explicit)),
{
    let default = json::member("replace_all"@, JsonTree::Bool(false));
    let completed = canonical::with_member(omitted, default);
    assert forall|key: Seq<char>| #[trigger]
        json::lookup(completed, key) == json::lookup(explicit, key) by {
        canonical::lemma_lookup_with_member(omitted, default, key);
        if key != "replace_all"@ {
            assert(json::lookup(omitted, key) == json::lookup(explicit, key));
        }
    }
    canonical::law_member_order_is_immaterial(completed, explicit);
}

/// The members of two function calls that differ in how their arguments are written and in nothing
/// else: the arguments of one are `a`, those of the other `b`.
pub open spec fn same_call(
    x: Seq<MemberTree>,
    y: Seq<MemberTree>,
    name: Seq<char>,
    a: Seq<char>,
    b: Seq<char>,
) -> bool {
    &&& json::lookup(x, "type"@) == Some(JsonTree::Text("function_call"@))
    &&& json::lookup(x, "name"@) == Some(JsonTree::Text(name))
    &&& json::lookup(x, "arguments"@) == Some(JsonTree::Text(a))
    &&& json::lookup(y, "arguments"@) == Some(JsonTree::Text(b))
    &&& forall|key: Seq<char>|
        key != "arguments"@ ==> #[trigger] json::lookup(x, key) == json::lookup(y, key)
}

/// A function call whose arguments were written anew, with the same value, is the same item: it is
/// hashed alike and recognised.
pub proof fn law_rewritten_arguments_keep_the_call(
    x: Seq<MemberTree>,
    y: Seq<MemberTree>,
    name: Seq<char>,
    a: Seq<char>,
    b: Seq<char>,
)
    requires
        same_call(x, y, name, a, b),
        parsing::parsed(a) is Some,
        parsing::parsed(b) is Some,
        transcript::arguments_form(name, parsing::parsed(a)->0) == transcript::arguments_form(
            name,
            parsing::parsed(b)->0,
        ),
    ensures
        transcript::hashed_item(JsonTree::Object(x)) == transcript::hashed_item(
            JsonTree::Object(y),
        ),
        transcript::items_match(JsonTree::Object(x), JsonTree::Object(y)),
        recognition::recognises(
            recognition::recognition(JsonTree::Object(x)),
            JsonTree::Object(y),
        ),
{
    reveal_strlit("type");
    reveal_strlit("name");
    reveal_strlit("call_id");
    reveal_strlit("arguments");
    reveal_strlit("reasoning");
    reveal_strlit("function_call");
    assert("type"@ != "arguments"@ && "name"@ != "arguments"@ && "call_id"@ != "arguments"@) by {
        assert("type"@.len() == 4 && "name"@.len() == 4 && "call_id"@.len() == 7);
        assert("arguments"@.len() == 9);
    }
    assert("reasoning"@ != "function_call"@) by {
        assert("reasoning"@.len() == 9 && "function_call"@.len() == 13);
    }
    assert(json::lookup(x, "type"@) == json::lookup(y, "type"@));
    assert(json::lookup(x, "name"@) == json::lookup(y, "name"@));
    assert(json::lookup(x, "call_id"@) == json::lookup(y, "call_id"@));
    let form = transcript::arguments_form(name, parsing::parsed(a)->0);
    let written = json::member("arguments"@, JsonTree::Text(encoding::encoded(form)));
    let (u, v) = (canonical::canonical_values(x), canonical::canonical_values(y));
    let (p, q) = (canonical::ordered(u), canonical::ordered(v));
    canonical::law_ordering_keeps_members(u);
    canonical::law_ordering_keeps_members(v);
    canonical::lemma_with_member_ordered(p, written);
    canonical::lemma_with_member_ordered(q, written);
    assert forall|key: Seq<char>| #[trigger]
        json::lookup(canonical::with_member(p, written), key) == json::lookup(
            canonical::with_member(q, written),
            key,
        ) by {
        canonical::lemma_lookup_with_member(p, written, key);
        canonical::lemma_lookup_with_member(q, written, key);
        canonical::lemma_lookup_canonical_values(x, key);
        canonical::lemma_lookup_canonical_values(y, key);
        assert(json::lookup(p, key) == json::lookup(u, key));
        assert(json::lookup(q, key) == json::lookup(v, key));
        if key != "arguments"@ {
            assert(json::lookup(x, key) == json::lookup(y, key));
        }
    }
    canonical::lemma_ordered_members_agree(
        canonical::with_member(p, written),
        canonical::with_member(q, written),
    );
    canonical::lemma_get_canonical(x, "type"@);
    canonical::lemma_get_canonical(x, "name"@);
    canonical::lemma_get_canonical(x, "arguments"@);
    canonical::lemma_get_canonical(y, "type"@);
    canonical::lemma_get_canonical(y, "name"@);
    canonical::lemma_get_canonical(y, "arguments"@);
    canonical::lemma_same_reflexive(form);
    assert forall|value: Option<JsonTree>| #[trigger] canonical::equal_options(value, value) by {
        if let Some(held) = value {
            canonical::lemma_same_reflexive(canonical::canonical(held));
        }
    }
    recognition::law_same_items_are_recognised(JsonTree::Object(x), JsonTree::Object(y));
}

/// A state holds nothing of the output that was visible but by what it is recognised: outputs that
/// are recognised alike leave the same state.
pub proof fn law_state_keeps_no_output(
    prepared: PreparedInlineCompaction,
    events: Seq<Seq<char>>,
    a: Seq<ResponsesInputItem>,
    b: Seq<ResponsesInputItem>,
    now_ms: u64,
)
    requires
        recognition::recognitions(commit::visible_values(a)) == recognition::recognitions(
            commit::visible_values(b),
        ),
    ensures
        commit::decision(prepared, events, a, now_ms) == commit::decision(
            prepared,
            events,
            b,
            now_ms,
        ),
{
}

/// Behind the end of a transcript no output is found that holds more than reasoning.
proof fn lemma_nothing_behind_the_end(
    expected: Seq<RecognitionView>,
    conversation: Seq<JsonTree>,
)
    requires
        replay::has_anchor(expected),
    ensures
        replay::behind_expected(expected, conversation, conversation.len() as int) is None,
    decreases expected.len(),
{
    if replay::expects_reasoning(expected[0]) {
        let rest = expected.drop_first();
        let i = choose|i: int|
            0 <= i < expected.len() && !replay::expects_reasoning(#[trigger] expected[i]);
        assert(rest[i - 1] == expected[i]);
        lemma_nothing_behind_the_end(rest, conversation);
    }
}

/// A transcript that does not go beyond the items that a state was made for does not continue it
/// where the state recorded an output: the output was never delivered.
pub proof fn law_undelivered_output_is_not_continued(state: StateView, conversation: Seq<JsonTree>)
    requires
        conversation.len() <= state.source_prefix_count,
        state.last_output_match.len() > 0,
    ensures
        replay::replay_point(state, conversation) is None,
{
    if replay::prefix_matches(state, conversation) && replay::has_anchor(state.last_output_match) {
        lemma_nothing_behind_the_end(state.last_output_match, conversation);
    }
}

/// A summary request that left the latest items out, and continues a state all the same, sends its
/// envelope, the compaction item, the fragments before those items, and its instruction.
pub proof fn law_cut_off_request_sends_the_instruction(
    state: StateView,
    lane_hash: Seq<char>,
    request: ResponsesRequest,
    threshold: u64,
    plan: (int, int),
)
    requires
        prepare::standing(Some(state), lane_hash, request, threshold, true, false)
            == (Standing::Continued { state, plan }),
        replay::replay_point(state, prepare::conversation_of(request.input@)) is None,
    ensures
        ({
            let conversation = prepare::conversation_of(request.input@);
            let envelope = prepare::envelope_of(request.input@);
            &&& replay::is_only_cutoff(state, conversation, plan.0)
            &&& replay::is_portable_message(conversation.last())
            &&& prepare::wire_items(envelope, state, conversation, plan) == prepare::item_texts(
                envelope,
            ).push(state.compaction_item_json) + state.raw_suffix_json.take(plan.0)
                + seq![encoding::encoded(conversation.last())]
        }),
{
    let conversation = prepare::conversation_of(request.input@);
    let cutoff = choose|cutoff: int| replay::is_only_cutoff(state, conversation, cutoff);
    assert(replay::is_only_cutoff(state, conversation, cutoff));
    assert(replay::is_cutoff(state, conversation, plan.0));
    assert(prepare::value_texts(conversation.skip(plan.1)) =~= seq![
        encoding::encoded(conversation.last()),
    ]);
}

/// What a prepared request says of itself: the threshold and the lane that it was prepared for, its
/// model, its fingerprint, the number of its items behind the envelope and their digest.
pub proof fn law_prepared_request_says_what_it_is(
    prepared: PreparedInlineCompaction,
    request: ResponsesRequest,
    threshold: u64,
    lane_hash: Seq<char>,
    portable: bool,
    recovery: bool,
    stored: Option<StateView>,
)
    requires
        prepare::prepared_for(
            Ok::<PreparedInlineCompaction, InlineCompactionError>(prepared),
            request,
            threshold,
            lane_hash,
            portable,
            recovery,
            stored,
        ),
    ensures
        ({
            let items = request.input@;
            let front = request::envelope_length(items);
            let values = Seq::new(
                (items.len() - front) as nat,
                |i: int| canonical::canonical(items[front + i].tree()),
            );
            &&& prepared.threshold == threshold
            &&& prepared.lane_hash@ == lane_hash
            &&& prepared.state_file@ == lane_hash + ".json"@
            &&& prepared.model@ == request.model@
            &&& prepared.semantic_fingerprint@ == fingerprint::request_digest(
                request,
                items.take(front),
            )
            &&& prepared.source_prefix_count == items.len() - front
            &&& prepared.source_prefix_sha256@ == transcript::transcript_digest(values)
            &&& prepared.portable_compact_boundary == portable
        }),
{
    let items = request.input@;
    request::law_envelope_is_the_longest_front(items);
    let front = request::envelope_length(items);
    let values = Seq::new(
        (items.len() - front) as nat,
        |i: int| canonical::canonical(items[front + i].tree()),
    );
    assert(prepare::conversation_of(items) =~= values);
}

/// When no earlier state counts: where there is none, in a lane that needs recovery, and where the
/// stored one has another model, another threshold or, outside a summary request, another
/// fingerprint. The input is then sent as it is, and only a state that does not belong is removed.
pub proof fn law_states_that_do_not_belong_are_dropped(
    prepared: PreparedInlineCompaction,
    request: ResponsesRequest,
    threshold: u64,
    lane_hash: Seq<char>,
    portable: bool,
    recovery: bool,
    stored: Option<StateView>,
)
    requires
        prepare::prepared_for(
            Ok::<PreparedInlineCompaction, InlineCompactionError>(prepared),
            request,
            threshold,
            lane_hash,
            portable,
            recovery,
            stored,
        ),
    ensures
        recovery ==> prepared.previous is None && !prepared.clear_state && (
        prepared.state_invalidation_reason matches Some(reason) && reason@
            == "state_recovery_required"@) && request.raw_input_override is None,
        !recovery && stored is None ==> prepared.previous is None && !prepared.clear_state
            && request.raw_input_override is None && if portable {
            prepared.state_invalidation_reason matches Some(reason) && reason@
                == "portable_compact_new_lineage"@
        } else {
            prepared.state_invalidation_reason is None
        },
        !recovery && (stored matches Some(state) && state.model != request.model@)
            ==> prepared.previous is None && prepared.clear_state && (
        prepared.state_invalidation_reason matches Some(reason) && reason@ == "model_mismatch"@)
            && request.raw_input_override is None,
        !recovery && (stored matches Some(state) && state.model == request.model@
            && state.compact_threshold != threshold) ==> prepared.previous is None
            && prepared.clear_state && (prepared.state_invalidation_reason matches Some(reason)
            && reason@ == "threshold_mismatch"@) && request.raw_input_override is None,
        !recovery && !portable && (stored matches Some(state) && state.model == request.model@
            && state.compact_threshold == threshold && state.semantic_fingerprint
            != fingerprint::request_digest(
            request,
            request.input@.take(request::envelope_length(request.input@)),
        )) ==> prepared.previous is None && prepared.clear_state && (
        prepared.state_invalidation_reason matches Some(reason) && reason@
            == "semantic_fingerprint_mismatch"@) && request.raw_input_override is None,
        prepared.previous is None ==> prepared.pending_input_suffix_json@.len() == 0,
        prepared.previous is Some <==> request.raw_input_override is Some,
        prepared.previous is Some ==> !prepared.clear_state && !recovery && if portable {
            prepared.state_invalidation_reason matches Some(reason) && reason@
                == "portable_compact_new_lineage"@
        } else {
            prepared.state_invalidation_reason is None
        },
{
    if prepared.previous is None {
        assert(crate::text::texts(prepared.pending_input_suffix_json@).len() == 0);
    }
}

/// A request whose lane has a state of another lane is refused, and so is one that would send a
/// text that is no JSON value; no other is.
pub proof fn law_only_foreign_states_and_broken_fragments_are_refused(
    error: InlineCompactionError,
    request: ResponsesRequest,
    threshold: u64,
    lane_hash: Seq<char>,
    portable: bool,
    recovery: bool,
    stored: Option<StateView>,
)
    requires
        prepare::prepared_for(
            Err::<PreparedInlineCompaction, InlineCompactionError>(error),
            request,
            threshold,
            lane_hash,
            portable,
            recovery,
            stored,
        ),
    ensures
        !recovery,
        stored is Some,
        request.raw_input_override is None,
        stored->0.lane_hash != lane_hash ==> (error matches InlineCompactionError::InvalidState(text)
            && text@ == "sidecar lane fingerprint mismatch"@),
        stored->0.lane_hash == lane_hash ==> (error matches InlineCompactionError::InvalidState(text)
            && text@ == "stored output item is not JSON"@),
{
}

/// A request that continues a state, at a place where its transcript stands behind the recorded
/// output, sends in place of its input, and in this order: each item of its envelope, encoded; the
/// compaction item of the state; every fragment of the state as it is stored; and the encoding of
/// each item of the transcript from that place on. These last are what it adds to the state.
pub proof fn law_continued_request_sends_envelope_state_and_additions(
    prepared: PreparedInlineCompaction,
    request: ResponsesRequest,
    threshold: u64,
    lane_hash: Seq<char>,
    portable: bool,
    state: StateView,
    at: int,
)
    requires
        prepare::prepared_for(
            Ok::<PreparedInlineCompaction, InlineCompactionError>(prepared),
            request,
            threshold,
            lane_hash,
            portable,
            false,
            Some(state),
        ),
        prepared.previous is Some,
        replay::replay_point(state, prepare::conversation_of(request.input@)) == Some(at),
        0 <= at <= prepare::conversation_of(request.input@).len(),
    ensures
        prepared.previous->0@ == state,
        request.raw_input_override is Some,
        ({
            let items = request.input@;
            let front = request::envelope_length(items);
            let sent = request.raw_input_override->0@;
            let suffix = state.raw_suffix_json;
            let pending = prepared.pending_input_suffix_json@;
            &&& pending.len() == items.len() - front - at
            &&& sent.len() == front + 1 + suffix.len() + pending.len()
            &&& forall|i: int|
                0 <= i < front ==> (#[trigger] sent[i])@ == encoding::encoded(items[i].tree())
            &&& sent[front]@ == state.compaction_item_json
            &&& forall|i: int|
                0 <= i < suffix.len() ==> sent[front + 1 + i]@ == #[trigger] suffix[i]
            &&& forall|i: int|
                0 <= i < pending.len() ==> sent[front + 1 + suffix.len() + i]@ == (
                #[trigger] pending[i])@
            &&& forall|i: int|
                0 <= i < pending.len() ==> (#[trigger] pending[i])@ == encoding::encoded(
                    canonical::canonical(items[front + at + i].tree()),
                )
        }),
{
    let items = request.input@;
    let front = request::envelope_length(items);
    let conversation = prepare::conversation_of(items);
    request::law_envelope_is_the_longest_front(items);
    let plan = (state.raw_suffix_json.len() as int, at);
    assert(prepare::standing(Some(state), lane_hash, request, threshold, portable, false)
        == (Standing::Continued { state, plan }));
    let wire = prepare::wire_items(prepare::envelope_of(items), state, conversation, plan);
    let sent = request.raw_input_override->0@;
    let pending = prepared.pending_input_suffix_json@;
    assert(crate::text::texts(sent) == wire);
    assert(crate::text::texts(pending) == prepare::value_texts(conversation.skip(at)));
    assert forall|i: int| 0 <= i < sent.len() implies (#[trigger] sent[i])@ == wire[i] by {
        assert(crate::text::texts(sent)[i] == sent[i]@);
    }
    assert forall|i: int| 0 <= i < pending.len() implies (#[trigger] pending[i])@
        == encoding::encoded(canonical::canonical(items[front + at + i].tree())) by {
        assert(crate::text::texts(pending)[i] == pending[i]@);
        assert(conversation.skip(at)[i] == conversation[at + i]);
    }
    assert forall|i: int| 0 <= i < pending.len() implies sent[front + 1
        + state.raw_suffix_json.len() + i]@ == (#[trigger] pending[i])@ by {
        let k = front + 1 + state.raw_suffix_json.len() + i;
        assert(crate::text::texts(pending)[i] == pending[i]@);
        assert(wire[k] == prepare::value_texts(conversation.skip(at))[i]);
        assert(sent[k]@ == wire[k]);
    }
    assert forall|i: int| 0 <= i < state.raw_suffix_json.len() implies sent[front + 1 + i]@
        == #[trigger] state.raw_suffix_json[i] by {}
}

/// Tools and messages of the developer at the front of a request are sent on every request that
/// continues a state, first of all and in their order.
pub proof fn law_developer_messages_are_always_sent(
    prepared: PreparedInlineCompaction,
    request: ResponsesRequest,
    threshold: u64,
    lane_hash: Seq<char>,
    portable: bool,
    recovery: bool,
    stored: Option<StateView>,
    count: int,
)
    requires
        prepare::prepared_for(
            Ok::<PreparedInlineCompaction, InlineCompactionError>(prepared),
            request,
            threshold,
            lane_hash,
            portable,
            recovery,
            stored,
        ),
        request.raw_input_override is Some,
        0 <= count <= request.input@.len(),
        forall|i: int|
            0 <= i < count ==> ((#[trigger] request.input@[i]) is AdditionalTools || (
            request.input@[i] matches ResponsesInputItem::Message { role, .. } && role@
                == "developer"@)),
    ensures
        count < request.raw_input_override->0@.len(),
        forall|i: int|
            0 <= i < count ==> (#[trigger] request.raw_input_override->0@[i])@ == encoding::encoded(
                request.input@[i].tree(),
            ),
{
    let items = request.input@;
    let sent = request.raw_input_override->0@;
    request::law_developer_front_is_in_the_envelope(items, count);
    request::law_envelope_is_the_longest_front(items);
    assert forall|i: int| 0 <= i < count implies (#[trigger] sent[i])@ == encoding::encoded(
        items[i].tree(),
    ) by {
        assert(crate::text::texts(sent)[i] == sent[i]@);
    }
    assert(crate::text::texts(sent).len() == sent.len());
}

/// A transcript that the recorded output does not account for is a branch: outside a summary request
/// the state is discarded, the input is sent as it is, and the sidecar is to be removed.
pub proof fn law_branched_transcript_discards_the_state(
    prepared: PreparedInlineCompaction,
    request: ResponsesRequest,
    threshold: u64,
    lane_hash: Seq<char>,
    state: StateView,
)
    requires
        prepare::prepared_for(
            Ok::<PreparedInlineCompaction, InlineCompactionError>(prepared),
            request,
            threshold,
            lane_hash,
            false,
            false,
            Some(state),
        ),
        state.model == request.model@,
        state.compact_threshold == threshold,
        state.semantic_fingerprint == prepared.semantic_fingerprint@,
        forall|to: int, places: Seq<int>|
            !replay::accounts_for(
                state.last_output_match,
                prepare::conversation_of(request.input@),
                state.source_prefix_count as int,
                to,
                places,
            ),
    ensures
        prepared.previous is None,
        prepared.clear_state,
        prepared.state_invalidation_reason matches Some(reason) && reason@
            == "transcript_mismatch"@,
        prepared.pending_input_suffix_json@.len() == 0,
        request.raw_input_override is None,
{
    let conversation = prepare::conversation_of(request.input@);
    if replay::replay_point(state, conversation) is Some {
        let places = replay::law_continuation_is_recognised(state, conversation);
        assert(false);
    }
    assert(crate::text::texts(prepared.pending_input_suffix_json@).len() == 0
        ==> prepared.pending_input_suffix_json@.len() == 0);
}

/// A transcript with another item in the place of one that the state recorded, by its type or its
/// digest, or with none there, is a branch, where the output held no reasoning.
pub proof fn law_another_answer_discards_the_state(
    prepared: PreparedInlineCompaction,
    request: ResponsesRequest,
    threshold: u64,
    lane_hash: Seq<char>,
    state: StateView,
    i: int,
)
    requires
        prepare::prepared_for(
            Ok::<PreparedInlineCompaction, InlineCompactionError>(prepared),
            request,
            threshold,
            lane_hash,
            false,
            false,
            Some(state),
        ),
        state.model == request.model@,
        state.compact_threshold == threshold,
        state.semantic_fingerprint == prepared.semantic_fingerprint@,
        forall|j: int|
            0 <= j < state.last_output_match.len() ==> (
            #[trigger] state.last_output_match[j]).kind != Some("reasoning"@),
        0 <= i < state.last_output_match.len(),
        ({
            let conversation = prepare::conversation_of(request.input@);
            let at = state.source_prefix_count + i;
            at < conversation.len() ==> {
                ||| conversation[at].text_at("type"@) != state.last_output_match[i].kind
                ||| recognition::recognition(conversation[at]).sha256
                    != state.last_output_match[i].sha256
            }
        }),
    ensures
        prepared.previous is None,
        prepared.clear_state,
        prepared.state_invalidation_reason matches Some(reason) && reason@
            == "transcript_mismatch"@,
        request.raw_input_override is None,
{
    let conversation = prepare::conversation_of(request.input@);
    replay::law_output_without_reasoning_stands_in_its_place(state, conversation);
    let at = state.source_prefix_count + i;
    if at < conversation.len() {
        assert(!replay::is_as_expected(state.last_output_match[i], conversation[at]));
    }
}

/// The demand to compact leaves a request as it was but for three things: it asks for compaction at
/// the threshold and for nothing else of the kind, it asks for encrypted reasoning behind whatever
/// else it asked for, once, and what is sent in place of its input.
pub proof fn law_demand_changes_nothing_else(
    before: ResponsesRequest,
    after: ResponsesRequest,
    threshold: u64,
    earlier: Seq<String>,
)
    requires
        prepare::demands_compaction(before, after, threshold),
        before.included is None ==> earlier.len() == 0,
        before.included matches Some(names) ==> earlier == names@,
    ensures
        after == (ResponsesRequest {
            context_management: after.context_management,
            included: after.included,
            raw_input_override: after.raw_input_override,
            ..before
        }),
        after.context_management matches Some(demands) && demands@.len() == 1 && demands@[0] == (
        request::ResponsesContextManagement::Compaction { compact_threshold: threshold }),
        after.included is Some,
        ({
            let names = after.included->0@;
            &&& forall|i: int|
                0 <= i < earlier.len() ==> i < names.len() && (#[trigger] names[i])@ == earlier[i]@
            &&& exists|i: int|
                0 <= i < names.len() && (#[trigger] names[i])@ == "reasoning.encrypted_content"@
            &&& names.len() == earlier.len() || names.len() == earlier.len() + 1
            &&& names.len() == earlier.len() + 1 ==> forall|i: int|
                0 <= i < earlier.len() ==> (#[trigger] earlier[i])@
                    != "reasoning.encrypted_content"@
        }),
{
    let names = after.included->0@;
    let wanted = prepare::with_reasoning(before.included);
    let held = crate::text::texts(earlier);
    assert(match before.included {
        Some(names) => crate::text::texts(names@),
        None => Seq::empty(),
    } =~= held);
    assert(crate::text::texts(names) == wanted);
    assert(names.len() == wanted.len());
    assert forall|i: int| 0 <= i < names.len() implies (#[trigger] names[i])@ == wanted[i] by {
        assert(crate::text::texts(names)[i] == names[i]@);
    }
    assert forall|i: int| 0 <= i < earlier.len() implies (#[trigger] earlier[i])@ == held[i] by {}
    if held.contains("reasoning.encrypted_content"@) {
        let i = choose|i: int| 0 <= i < held.len() && held[i] == "reasoning.encrypted_content"@;
        assert(names[i]@ == wanted[i]);
    } else {
        assert(names[held.len() as int]@ == wanted[held.len() as int]);
        assert forall|i: int| 0 <= i < earlier.len() implies (#[trigger] earlier[i])@
            != "reasoning.encrypted_content"@ by {
            assert(held[i] == earlier[i]@);
            assert(held.contains(held[i]));
        }
    }
}

/// What is done to the sidecar once a response has been read. With no compaction among the output
/// items and as many input tokens as the threshold or more, it stays as it is; else a summary
/// removes it; else it stays absent where there was none and nothing was compacted; else it is
/// written.
pub proof fn law_commit_does_one_of_four_things(
    plan: CommitPlan,
    prepared: PreparedInlineCompaction,
    events: Seq<Seq<char>>,
    visible: Seq<ResponsesInputItem>,
    now_ms: u64,
)
    requires
        commit::planned_for(
            Ok::<CommitPlan, InlineCompactionError>(plan),
            prepared,
            events,
            visible,
            now_ms,
        ),
    ensures
        upstream::stream_fault(events) is None,
        ({
            let items = upstream::output_items(events);
            let plain = forall|i: int|
                0 <= i < items.len() ==> (#[trigger] items[i]).value.text_at("type"@) != Some(
                    "compaction"@,
                );
            let crossed = upstream::last_usage(events)->0 >= prepared.threshold;
            let boundary = prepared.portable_compact_boundary;
            &&& plan.action is Measure <==> plain && crossed
            &&& plan.action is Clear <==> !(plain && crossed) && boundary
            &&& plan.action is Nothing <==> plain && !crossed && !boundary
                && prepared.previous is None
            &&& plan.action is Write <==> !(plain && crossed) && !boundary && (!plain
                || prepared.previous is Some)
            &&& plan.report.outcome == if plan.action is Measure && prepared.previous is Some {
                CommitOutcome::Preserved
            } else if plan.action is Write && plain {
                CommitOutcome::Advanced
            } else if plan.action is Write && prepared.previous is Some {
                CommitOutcome::Replaced
            } else if plan.action is Write {
                CommitOutcome::Created
            } else {
                CommitOutcome::NoState
            }
            &&& plan.report.usage_input_tokens == upstream::last_usage(events)->0
            &&& plan.report.lane_hash@ == prepared.lane_hash@
            &&& plan.report.state_bytes == 0
            &&& plan.report.compaction_count == items.filter(
                |item: upstream::ItemView| item.value.text_at("type"@) == Some("compaction"@),
            ).len()
            &&& plan.action is Measure <==> plan.report.anomaly_reason is Some
            &&& plan.report.anomaly_reason matches Some(reason) ==> reason@
                == "threshold_crossed_without_compaction"@
            &&& plan.report.invalidation_reason is Some
                <==> prepared.state_invalidation_reason is Some
            &&& plan.report.invalidation_reason is Some ==> plan.report.invalidation_reason->0@
                == prepared.state_invalidation_reason->0@
            &&& plan.action is Measure && prepared.previous is Some ==> plan.report.suffix_count
                == prepared.previous->0.raw_suffix_json@.len()
            &&& plan.action matches commit::CommitAction::Write(written)
                ==> plan.report.suffix_count == written.raw_suffix_json@.len()
            &&& !(plan.action is Write) && !(plan.action is Measure && prepared.previous is Some)
                ==> plan.report.suffix_count == 0
        }),
{
    let items = upstream::output_items(events);
    upstream::law_last_compaction_is_the_last(items);
    upstream::law_compactions_are_counted(items);
    if let Some(position) = upstream::last_compaction(items) {
        assert(upstream::is_compaction(items[position]));
        assert(items[position].value.text_at("type"@) == Some("compaction"@));
    } else {
        assert forall|i: int| 0 <= i < items.len() implies (#[trigger] items[i]).value.text_at(
            "type"@,
        ) != Some("compaction"@) by {
            assert(!upstream::is_compaction(items[i]));
        }
    }
}

/// After a response without a compaction, the state that is written holds what the previous one
/// held, then every item that the request added, then the text of every output item, each exactly
/// as it was and in order. It keeps its compaction item and its lineage, and records the transcript
/// of the request, the tokens used, and by what each visible item is recognised.
pub proof fn law_advanced_state_keeps_every_item(
    plan: CommitPlan,
    prepared: PreparedInlineCompaction,
    events: Seq<Seq<char>>,
    visible: Seq<ResponsesInputItem>,
    now_ms: u64,
)
    requires
        commit::planned_for(
            Ok::<CommitPlan, InlineCompactionError>(plan),
            prepared,
            events,
            visible,
            now_ms,
        ),
        plan.action is Write,
        prepared.previous is Some,
        forall|i: int|
            0 <= i < upstream::output_items(events).len() ==> (
            #[trigger] upstream::output_items(events)[i]).value.text_at("type"@) != Some(
                "compaction"@,
            ),
    ensures
        ({
            let before = prepared.previous->0;
            let written = plan.action->Write_0;
            let kept = before.raw_suffix_json@;
            let added = prepared.pending_input_suffix_json@;
            let items = upstream::output_items(events);
            let suffix = written.raw_suffix_json@;
            &&& suffix.len() == kept.len() + added.len() + items.len()
            &&& forall|i: int| 0 <= i < kept.len() ==> suffix[i]@ == (#[trigger] kept[i])@
            &&& forall|i: int|
                0 <= i < added.len() ==> suffix[kept.len() + i]@ == (#[trigger] added[i])@
            &&& forall|i: int|
                0 <= i < items.len() ==> suffix[kept.len() + added.len() + i]@ == (
                #[trigger] items[i]).raw
            &&& written.raw_suffix_sha256@ == digest::fragments_fingerprint(
                crate::text::texts(suffix),
            )
            &&& written.version == before.version
            &&& written.lane_hash@ == before.lane_hash@
            &&& written.model@ == before.model@
            &&& written.semantic_fingerprint@ == before.semantic_fingerprint@
            &&& written.compact_threshold == before.compact_threshold
            &&& written.compaction_item_json@ == before.compaction_item_json@
            &&& written.compaction_item_sha256@ == before.compaction_item_sha256@
            &&& written.opaque_sha256@ == before.opaque_sha256@
            &&& written.source_prefix_count == prepared.source_prefix_count
            &&& written.source_prefix_sha256@ == prepared.source_prefix_sha256@
            &&& Some(written.usage_input_tokens) == upstream::last_usage(events)
            &&& written.last_output_match@.len() == visible.len()
            &&& forall|i: int|
                0 <= i < visible.len() ==> (#[trigger] written.last_output_match@[i])@
                    == recognition::recognition(canonical::canonical(visible[i].tree()))
            &&& written.updated_at_ms == if before.updated_at_ms < now_ms {
                now_ms
            } else if before.updated_at_ms < u64::MAX {
                (before.updated_at_ms + 1) as u64
            } else {
                u64::MAX
            }
        }),
{
    let items = upstream::output_items(events);
    upstream::law_last_compaction_is_the_last(items);
    if let Some(position) = upstream::last_compaction(items) {
        assert(items[position].value.text_at("type"@) == Some("compaction"@));
    }
    let before = prepared.previous->0;
    let written = plan.action->Write_0;
    let kept = before.raw_suffix_json@;
    let added = prepared.pending_input_suffix_json@;
    let suffix = written.raw_suffix_json@;
    let texts = crate::text::texts(suffix);
    assert(texts == crate::text::texts(kept) + crate::text::texts(added) + commit::raw_texts(
        items,
    ));
    assert(texts.len() == suffix.len());
    assert forall|i: int| 0 <= i < suffix.len() implies texts[i] == (#[trigger] suffix[i])@ by {}
    assert forall|i: int| 0 <= i < kept.len() implies suffix[i]@ == (#[trigger] kept[i])@ by {
        assert(texts[i] == suffix[i]@);
        assert(crate::text::texts(kept)[i] == kept[i]@);
    }
    assert forall|i: int| 0 <= i < added.len() implies suffix[kept.len() + i]@ == (
    #[trigger] added[i])@ by {
        assert(texts[kept.len() + i] == suffix[kept.len() + i]@);
        assert(crate::text::texts(added)[i] == added[i]@);
    }
    assert forall|i: int| 0 <= i < items.len() implies suffix[kept.len() + added.len() + i]@ == (
    #[trigger] items[i]).raw by {
        assert(texts[kept.len() + added.len() + i] == suffix[kept.len() + added.len() + i]@);
        assert(commit::raw_texts(items)[i] == items[i].raw);
    }
    lemma_recorded_output(written.last_output_match@, visible);
}

/// What a state recorded of the visible output, item by item.
proof fn lemma_recorded_output(
    recorded: Seq<recognition::Recognition>,
    visible: Seq<ResponsesInputItem>,
)
    requires
        recognition::views(recorded) == recognition::recognitions(commit::visible_values(visible)),
    ensures
        recorded.len() == visible.len(),
        forall|i: int|
            0 <= i < visible.len() ==> (#[trigger] recorded[i])@ == recognition::recognition(
                canonical::canonical(visible[i].tree()),
            ),
{
    let values = recognition::recognitions(commit::visible_values(visible));
    assert(recognition::views(recorded).len() == recorded.len());
    assert(commit::visible_values(visible).len() == visible.len());
    assert(values.len() == visible.len());
    assert forall|i: int| 0 <= i < visible.len() implies (#[trigger] recorded[i])@
        == recognition::recognition(canonical::canonical(visible[i].tree())) by {
        assert(recognition::views(recorded)[i] == recorded[i]@);
        assert(values[i] == recognition::recognition(commit::visible_values(visible)[i]));
    }
}

/// After a response with a compaction, the state that is written holds the text of the last
/// compaction item and of every output item behind it, each exactly as it was and in order, and
/// nothing from before it. It belongs to the lane, the model, the threshold and the fingerprint of
/// the request.
pub proof fn law_compacted_state_starts_at_the_last_compaction(
    plan: CommitPlan,
    prepared: PreparedInlineCompaction,
    events: Seq<Seq<char>>,
    visible: Seq<ResponsesInputItem>,
    now_ms: u64,
    position: int,
)
    requires
        commit::planned_for(
            Ok::<CommitPlan, InlineCompactionError>(plan),
            prepared,
            events,
            visible,
            now_ms,
        ),
        plan.action is Write,
        0 <= position < upstream::output_items(events).len(),
        upstream::output_items(events)[position].value.text_at("type"@) == Some("compaction"@),
        forall|i: int|
            position < i < upstream::output_items(events).len() ==> (
            #[trigger] upstream::output_items(events)[i]).value.text_at("type"@) != Some(
                "compaction"@,
            ),
    ensures
        ({
            let written = plan.action->Write_0;
            let items = upstream::output_items(events);
            let suffix = written.raw_suffix_json@;
            let opaque = items[position].value.text_at("encrypted_content"@);
            &&& suffix.len() == items.len() - position - 1
            &&& forall|i: int|
                0 <= i < suffix.len() ==> (#[trigger] suffix[i])@ == items[position + 1 + i].raw
            &&& written.raw_suffix_sha256@ == digest::fragments_fingerprint(
                crate::text::texts(suffix),
            )
            &&& written.compaction_item_json@ == items[position].raw
            &&& written.compaction_item_sha256@ == digest::text_fingerprint(items[position].raw)
            &&& opaque is Some && opaque->0.len() > 0
            &&& written.opaque_sha256@ == digest::text_fingerprint(opaque->0)
            &&& written.version == 1
            &&& written.lane_hash@ == prepared.lane_hash@
            &&& written.model@ == prepared.model@
            &&& written.semantic_fingerprint@ == prepared.semantic_fingerprint@
            &&& written.compact_threshold == prepared.threshold
            &&& written.source_prefix_count == prepared.source_prefix_count
            &&& written.source_prefix_sha256@ == prepared.source_prefix_sha256@
            &&& Some(written.usage_input_tokens) == upstream::last_usage(events)
            &&& written.last_output_match@.len() == visible.len()
            &&& forall|i: int|
                0 <= i < visible.len() ==> (#[trigger] written.last_output_match@[i])@
                    == recognition::recognition(canonical::canonical(visible[i].tree()))
            &&& prepared.previous is None ==> written.updated_at_ms == now_ms
            &&& prepared.previous matches Some(before) ==> written.updated_at_ms == if before
                .updated_at_ms < now_ms {
                now_ms
            } else if before.updated_at_ms < u64::MAX {
                (before.updated_at_ms + 1) as u64
            } else {
                u64::MAX
            }
            &&& plan.report.last_item_index == Some(items[position].index)
        }),
{
    let items = upstream::output_items(events);
    upstream::law_last_compaction_is_the_last(items);
    assert(upstream::is_compaction(items[position]));
    if let Some(last) = upstream::last_compaction(items) {
        if last > position {
            assert(items[last].value.text_at("type"@) == Some("compaction"@));
        }
        assert(last == position);
    }
    let written = plan.action->Write_0;
    let suffix = written.raw_suffix_json@;
    let texts = crate::text::texts(suffix);
    assert(texts == commit::raw_texts(items.skip(position + 1)));
    assert(texts.len() == suffix.len());
    assert forall|i: int| 0 <= i < suffix.len() implies (#[trigger] suffix[i])@ == items[position + 1
        + i].raw by {
        assert(texts[i] == suffix[i]@);
        assert(items.skip(position + 1)[i] == items[position + 1 + i]);
    }
    lemma_recorded_output(written.last_output_match@, visible);
}

/// What a request sent behind the compaction item, and the text of every output item of a response
/// without another compaction, are the fragments of the state that is written.
pub proof fn law_state_holds_what_was_sent_and_what_came_back(
    prepared: PreparedInlineCompaction,
    request: ResponsesRequest,
    threshold: u64,
    lane_hash: Seq<char>,
    state: StateView,
    at: int,
    plan: CommitPlan,
    events: Seq<Seq<char>>,
    visible: Seq<ResponsesInputItem>,
    now_ms: u64,
)
    requires
        prepare::prepared_for(
            Ok::<PreparedInlineCompaction, InlineCompactionError>(prepared),
            request,
            threshold,
            lane_hash,
            false,
            false,
            Some(state),
        ),
        prepared.previous is Some,
        replay::replay_point(state, prepare::conversation_of(request.input@)) == Some(at),
        0 <= at <= prepare::conversation_of(request.input@).len(),
        commit::planned_for(
            Ok::<CommitPlan, InlineCompactionError>(plan),
            prepared,
            events,
            visible,
            now_ms,
        ),
        plan.action is Write,
        forall|i: int|
            0 <= i < upstream::output_items(events).len() ==> (
            #[trigger] upstream::output_items(events)[i]).value.text_at("type"@) != Some(
                "compaction"@,
            ),
    ensures
        ({
            let sent = crate::text::texts(request.raw_input_override->0@);
            let front = request::envelope_length(request.input@);
            let items = upstream::output_items(events);
            let raws = Seq::new(items.len(), |i: int| items[i].raw);
            let written = plan.action->Write_0@;
            &&& 0 <= front < sent.len()
            &&& sent[front] == written.compaction_item_json
            &&& written.raw_suffix_json == sent.skip(front + 1) + raws
        }),
{
    law_continued_request_sends_envelope_state_and_additions(
        prepared,
        request,
        threshold,
        lane_hash,
        false,
        state,
        at,
    );
    law_advanced_state_keeps_every_item(plan, prepared, events, visible, now_ms);
    let items = request.input@;
    request::law_envelope_is_the_longest_front(items);
    let front = request::envelope_length(items);
    let strings = request.raw_input_override->0@;
    let sent = crate::text::texts(strings);
    let output = upstream::output_items(events);
    let raws = Seq::new(output.len(), |i: int| output[i].raw);
    let written = plan.action->Write_0;
    let suffix = written.raw_suffix_json@;
    let kept = prepared.previous->0.raw_suffix_json@;
    let added = prepared.pending_input_suffix_json@;
    assert(state.raw_suffix_json == crate::text::texts(kept));
    assert(written@.raw_suffix_json =~= sent.skip(front + 1) + raws) by {
        assert forall|i: int| 0 <= i < suffix.len() implies (#[trigger] suffix[i])@ == (sent.skip(
            front + 1,
        ) + raws)[i] by {
            if i < kept.len() {
                assert(suffix[i]@ == kept[i]@);
                assert(state.raw_suffix_json[i] == kept[i]@);
                assert(strings[front + 1 + i]@ == state.raw_suffix_json[i]);
            } else if i < kept.len() + added.len() {
                let j = i - kept.len();
                assert(suffix[kept.len() + j]@ == added[j]@);
                assert(strings[front + 1 + state.raw_suffix_json.len() + j]@ == added[j]@);
            } else {
                let j = i - kept.len() - added.len();
                assert(suffix[kept.len() + added.len() + j]@ == output[j].raw);
            }
        }
    }
}

/// From one request to the next: after a response without another compaction, the next request that
/// repeats the items, echoes the visible output and adds the items `added` sends what this request
/// sent behind the compaction item, then every output item exactly as it came, then its additions.
pub proof fn law_next_request_sends_all_that_went_before(
    prepared: PreparedInlineCompaction,
    request: ResponsesRequest,
    threshold: u64,
    lane_hash: Seq<char>,
    state: StateView,
    at: int,
    plan: CommitPlan,
    events: Seq<Seq<char>>,
    visible: Seq<ResponsesInputItem>,
    now_ms: u64,
    next: ResponsesRequest,
    added: Seq<ResponsesInputItem>,
    result: PreparedInlineCompaction,
)
    requires
        prepare::prepared_for(
            Ok::<PreparedInlineCompaction, InlineCompactionError>(prepared),
            request,
            threshold,
            lane_hash,
            false,
            false,
            Some(state),
        ),
        prepared.previous is Some,
        replay::replay_point(state, prepare::conversation_of(request.input@)) == Some(at),
        0 <= at <= prepare::conversation_of(request.input@).len(),
        commit::planned_for(
            Ok::<CommitPlan, InlineCompactionError>(plan),
            prepared,
            events,
            visible,
            now_ms,
        ),
        plan.action is Write,
        forall|i: int|
            0 <= i < upstream::output_items(events).len() ==> (
            #[trigger] upstream::output_items(events)[i]).value.text_at("type"@) != Some(
                "compaction"@,
            ),
        is_recognisable(commit::visible_values(visible)),
        prepare::conversation_of(request.input@).len() > 0,
        next.input@ == request.input@ + visible + added,
        next.model@ == request.model@,
        fingerprint::request_digest(next, prepare::envelope_of(request.input@))
            == fingerprint::request_digest(request, prepare::envelope_of(request.input@)),
        prepare::prepared_for(
            Ok::<PreparedInlineCompaction, InlineCompactionError>(result),
            next,
            threshold,
            lane_hash,
            false,
            false,
            Some(plan.action->Write_0@),
        ),
    ensures
        next.raw_input_override is Some,
        ({
            let sent = crate::text::texts(request.raw_input_override->0@);
            let front = request::envelope_length(request.input@);
            let items = upstream::output_items(events);
            let raws = Seq::new(items.len(), |i: int| items[i].raw);
            let encodings = Seq::new(
                added.len(),
                |i: int| encoding::encoded(canonical::canonical(added[i].tree())),
            );
            crate::text::texts(next.raw_input_override->0@) == sent + raws + encodings
        }),
{
    law_state_holds_what_was_sent_and_what_came_back(
        prepared,
        request,
        threshold,
        lane_hash,
        state,
        at,
        plan,
        events,
        visible,
        now_ms,
    );
    law_prepared_keeps_lineage(
        prepared,
        request,
        threshold,
        lane_hash,
        false,
        false,
        Some(state),
    );
    let items = upstream::output_items(events);
    upstream::law_last_compaction_is_the_last(items);
    if let Some(position) = upstream::last_compaction(items) {
        assert(items[position].value.text_at("type"@) == Some("compaction"@));
    }
    let written = plan.action->Write_0@;
    assert(commit::decision(prepared, events, visible, now_ms)->Write_0 == written);
    law_next_request_replays_the_state(
        prepared,
        request,
        events,
        visible,
        now_ms,
        next,
        added,
        result,
    );
    law_continued_request_sends_envelope_state_and_additions(
        prepared,
        request,
        threshold,
        lane_hash,
        false,
        state,
        at,
    );
    request::law_envelope_is_the_longest_front(request.input@);
    let strings = request.raw_input_override->0@;
    let sent = crate::text::texts(strings);
    let front = request::envelope_length(request.input@);
    let raws = Seq::new(items.len(), |i: int| items[i].raw);
    let encodings = Seq::new(
        added.len(),
        |i: int| encoding::encoded(canonical::canonical(added[i].tree())),
    );
    assert(prepare::value_texts(commit::visible_values(added)) =~= encodings);
    let texts = prepare::item_texts(prepare::envelope_of(request.input@)).push(
        written.compaction_item_json,
    );
    assert(texts =~= sent.take(front + 1)) by {
        assert forall|i: int| 0 <= i < front implies texts[i] == sent[i] by {
            assert(strings[i]@ == encoding::encoded(request.input@[i].tree()));
        }
    }
    assert(texts + (sent.skip(front + 1) + raws) + encodings =~= sent + raws + encodings);
}

/// A response is committed, and nothing is refused, where its stream is accepted, a compaction item
/// in it has a payload that is not empty, each output item that is kept can be replayed, and so can
/// the items that the request added, behind a state that is valid.
pub proof fn law_sound_responses_are_committed(
    result: Result<CommitPlan, InlineCompactionError>,
    prepared: PreparedInlineCompaction,
    events: Seq<Seq<char>>,
    visible: Seq<ResponsesInputItem>,
    now_ms: u64,
)
    requires
        commit::planned_for(result, prepared, events, visible, now_ms),
        upstream::stream_fault(events) is None,
        prepared.previous matches Some(previous) ==> sidecar::state_fault(previous@) is None,
        forall|i: int|
            0 <= i < prepared.pending_input_suffix_json@.len() ==> parsing::raw_accepted(
                (#[trigger] prepared.pending_input_suffix_json@[i])@,
            ) && sidecar::can_be_replayed(prepared.pending_input_suffix_json@[i]@),
        forall|i: int|
            0 <= i < upstream::output_items(events).len() ==> {
                let item = #[trigger] upstream::output_items(events)[i];
                if item.value.text_at("type"@) == Some("compaction"@) {
                    item.value.text_at("encrypted_content"@) matches Some(opaque) && opaque.len()
                        > 0
                } else {
                    parsing::raw_accepted(item.raw) && sidecar::can_be_replayed(item.raw)
                }
            },
    ensures
        result is Ok,
{
    let items = upstream::output_items(events);
    upstream::law_last_compaction_is_the_last(items);
    upstream::law_items_stand_by_index(events);
    assert forall|i: int| 0 <= i < items.len() implies parsing::parsed((#[trigger] items[i]).raw)
        == Some(items[i].value) by {
        assert(items.contains(items[i]));
        assert(upstream::brings(events, items[i]));
    }
    let usage = upstream::last_usage(events)->0;
    match upstream::last_compaction(items) {
        Some(position) => {
            let state = commit::compacted_state(prepared, items, position, visible, usage, now_ms);
            sidecar::law_valid_states(state);
            let suffix = state.raw_suffix_json;
            assert(items[position].value.text_at("type"@) == Some("compaction"@));
            assert(parsing::parsed(items[position].raw) == Some(items[position].value));
            assert forall|i: int| 0 <= i < suffix.len() implies parsing::raw_accepted(
                #[trigger] suffix[i],
            ) && sidecar::can_be_replayed(suffix[i]) by {
                let item = items[position + 1 + i];
                assert(suffix[i] == item.raw);
                assert(!upstream::is_compaction(item));
            }
        },
        None => {
            if let Some(previous) = prepared.previous {
                let state = commit::advanced_state(
                    previous@,
                    prepared,
                    items,
                    visible,
                    usage,
                    now_ms,
                );
                sidecar::law_valid_states(previous@);
                sidecar::law_valid_states(state);
                let suffix = state.raw_suffix_json;
                let kept = previous@.raw_suffix_json;
                let added = prepared.pending_input_suffix_json@;
                assert forall|i: int| 0 <= i < suffix.len() implies parsing::raw_accepted(
                    #[trigger] suffix[i],
                ) && sidecar::can_be_replayed(suffix[i]) by {
                    if i < kept.len() {
                        assert(suffix[i] == kept[i]);
                    } else if i < kept.len() + added.len() {
                        assert(suffix[i] == added[i - kept.len()]@);
                    } else {
                        let item = items[i - kept.len() - added.len()];
                        assert(suffix[i] == item.raw);
                        assert(!upstream::is_compaction(item));
                    }
                }
            }
        },
    }
}

/// What a refused response is refused for: what is wrong with its stream, a compaction item without
/// a payload, or a state that would not be valid. Nothing of it is written.
pub proof fn law_refused_responses_name_their_fault(
    error: InlineCompactionError,
    prepared: PreparedInlineCompaction,
    events: Seq<Seq<char>>,
    visible: Seq<ResponsesInputItem>,
    now_ms: u64,
)
    requires
        commit::planned_for(
            Err::<CommitPlan, InlineCompactionError>(error),
            prepared,
            events,
            visible,
            now_ms,
        ),
    ensures
        upstream::stream_fault(events) matches Some(fault) ==> (
        error matches InlineCompactionError::InvalidUpstream(text) && text@ == fault),
        upstream::stream_fault(events) is None && (
        error matches InlineCompactionError::InvalidUpstream(text)) ==> error->InvalidUpstream_0@
            == "compaction item has no opaque payload"@,
        error is InvalidUpstream || error is InvalidState,
{
}

/// The size of a sidecar is reported where one is written or left as it is, and no size where one is
/// removed or there is none.
pub proof fn law_reported_sizes(
    plan: commit::CommitPlan,
    prepared: PreparedInlineCompaction,
    events: Seq<Seq<char>>,
    visible: Seq<ResponsesInputItem>,
    now_ms: u64,
    state_bytes: u64,
)
    requires
        commit::planned_for(Ok(plan), prepared, events, visible, now_ms),
    ensures
        plan.action is Write || plan.action is Measure ==> plan.reported_bytes(state_bytes)
            == state_bytes,
        plan.action is Clear || plan.action is Nothing ==> plan.reported_bytes(state_bytes) == 0,
{
}

/// A new revision is the time, unless the one before it is not earlier: then it is the next number.
pub proof fn law_revisions_are_times(previous: u64, now_ms: u64)
    ensures
        commit::revision(None, now_ms) == now_ms,
        previous < now_ms ==> commit::revision(Some(previous), now_ms) == now_ms,
        now_ms <= previous < 0xffff_ffff_ffff_ffff ==> commit::revision(Some(previous), now_ms)
            == previous + 1,
        previous == 0xffff_ffff_ffff_ffff ==> commit::revision(Some(previous), now_ms) == previous,
{
}

}
