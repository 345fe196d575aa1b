//! Where a transcript continues from the state of its lane.

use vstd::prelude::*;
use vstd::slice::slice_subrange;
use vstd::string::*;

use crate::digest;
use crate::encoding;
use crate::json::{Json, JsonTree};
use crate::json;
use crate::parsing::parse_json;
use crate::parsing;
use crate::parts::contains_text;
use crate::parts;
use crate::recognition::{replay_item_matches, RecognitionView};
use crate::recognition;
use crate::sidecar::{SidecarState, StateView};
use crate::text::same_text;
use crate::text;
use crate::transcript::{hash_list, hash_transcript};
use crate::transcript;

verus! {

/// Whether a transcript begins with the items that the state was made for.
pub open spec fn prefix_matches(state: StateView, conversation: Seq<JsonTree>) -> bool {
    let prefix = conversation.take(state.source_prefix_count as int);
    &&& state.source_prefix_count <= conversation.len()
    &&& transcript::list_digest(prefix) == state.source_prefix_sha256
        || transcript::transcript_digest(prefix) == state.source_prefix_sha256
}

/// Whether an item is reasoning.
pub open spec fn is_reasoning(item: JsonTree) -> bool {
    transcript::is_kind(item, "reasoning"@)
}

/// Whether an expected item is reasoning.
pub open spec fn expects_reasoning(expected: RecognitionView) -> bool {
    expected.kind == Some("reasoning"@)
}

/// Where a transcript stands behind the expected items, which begin at position `at`. Expected
/// reasoning may be left out of the transcript, and nothing else may.
pub open spec fn behind_expected(
    expected: Seq<RecognitionView>,
    conversation: Seq<JsonTree>,
    at: int,
) -> Option<int>
    decreases expected.len(),
{
    if expected.len() == 0 {
        Some(at)
    } else {
        let present = at < conversation.len() && (expects_reasoning(expected[0]) ==> is_reasoning(
            conversation[at],
        ));
        if present {
            if recognition::recognises(expected[0], conversation[at]) {
                behind_expected(expected.drop_first(), conversation, at + 1)
            } else {
                None
            }
        } else if expects_reasoning(expected[0]) {
            behind_expected(expected.drop_first(), conversation, at)
        } else {
            None
        }
    }
}

/// Whether one of the expected items is more than reasoning.
pub open spec fn has_anchor(expected: Seq<RecognitionView>) -> bool {
    exists|i: int| 0 <= i < expected.len() && !expects_reasoning(#[trigger] expected[i])
}

/// Where a transcript continues behind the state: behind the items that the state was made for and
/// the output that it recorded. An output of reasoning alone anchors nothing.
pub open spec fn replay_point(state: StateView, conversation: Seq<JsonTree>) -> Option<int> {
    if !prefix_matches(state, conversation) {
        None
    } else if state.last_output_match.len() > 0 && !has_anchor(state.last_output_match) {
        None
    } else {
        behind_expected(
            state.last_output_match,
            conversation,
            state.source_prefix_count as int,
        )
    }
}

/// Where a transcript continues behind the state.
pub fn replay_start(state: &SidecarState, conversation: &[Json]) -> (start: Option<usize>)
    ensures
        match start {
            Some(at) => replay_point(state@, json::trees(conversation@)) == Some(at as int) && at
                <= conversation@.len(),
            None => replay_point(state@, json::trees(conversation@)) is None,
        },
{
    let ghost items = json::trees(conversation@);
    let count: usize = state.source_prefix_count;
    if count > conversation.len() {
        return None;
    }
    let prefix = slice_subrange(conversation, 0, count);
    assert(json::trees(prefix@) =~= items.take(count as int));
    let exact = hash_list(prefix);
    let semantic = hash_transcript(prefix);
    if !same_text(exact.as_str(), state.source_prefix_sha256.as_str()) && !same_text(
        semantic.as_str(),
        state.source_prefix_sha256.as_str(),
    ) {
        return None;
    }
    let ghost expected = recognition::views(state.last_output_match@);
    let mut actual_index: usize = count;
    let mut stable_anchor_seen = false;
    let mut i: usize = 0;
    assert(expected.skip(0) =~= expected);
    while i < state.last_output_match.len()
        invariant
            i <= state.last_output_match@.len(),
            actual_index <= conversation@.len(),
            items == json::trees(conversation@),
            expected == recognition::views(state.last_output_match@),
            count == state.source_prefix_count,
            behind_expected(expected, items, count as int) == behind_expected(
                expected.skip(i as int),
                items,
                actual_index as int,
            ),
            stable_anchor_seen == has_anchor(expected.take(i as int)),
        decreases state.last_output_match@.len() - i,
    {
        let wanted = &state.last_output_match[i];
        let reasoning = match &wanted.kind {
            Some(kind) => same_text(kind.as_str(), "reasoning"),
            None => false,
        };
        proof {
            assert(expected.skip(i as int)[0] == wanted@);
            assert(expected.skip(i as int).drop_first() =~= expected.skip(i + 1));
            lemma_anchor_grows(expected, i as int);
        }
        i = i + 1;
        if !reasoning {
            stable_anchor_seen = true;
        }
        let present = actual_index < conversation.len() && (!reasoning
            || conversation[actual_index].text_at_is("type", "reasoning"));
        if present {
            if !replay_item_matches(wanted, &conversation[actual_index]) {
                return None;
            }
            actual_index = actual_index + 1;
        } else if !reasoning {
            return None;
        }
    }
    assert(expected.take(i as int) =~= expected);
    if state.last_output_match.len() > 0 && !stable_anchor_seen {
        return None;
    }
    Some(actual_index)
}

/// One more item anchors the output where it is more than reasoning.
proof fn lemma_anchor_grows(expected: Seq<RecognitionView>, i: int)
    requires
        0 <= i < expected.len(),
    ensures
        has_anchor(expected.take(i + 1)) <==> has_anchor(expected.take(i)) || !expects_reasoning(
            expected[i],
        ),
{
    let (short, long) = (expected.take(i), expected.take(i + 1));
    if has_anchor(short) {
        let j = choose|j: int| 0 <= j < short.len() && !expects_reasoning(#[trigger] short[j]);
        assert(long[j] == short[j]);
    }
    if !expects_reasoning(expected[i]) {
        assert(long[i] == expected[i]);
    }
    if has_anchor(long) {
        let j = choose|j: int| 0 <= j < long.len() && !expects_reasoning(#[trigger] long[j]);
        if j < i {
            assert(short[j] == long[j]);
        }
    }
}

/// Whether a text is the instruction to summarise the conversation.
pub open spec fn is_compact_text(text: Seq<char>) -> bool {
    parts::contains(text, "CRITICAL: Respond with TEXT ONLY. Do NOT call any tools."@)
        && parts::contains(
        text,
        "Your task is to create a detailed summary of the conversation so far"@,
    )
}

/// Whether an item is the user message with the instruction to summarise the conversation.
pub open spec fn is_portable_message(item: JsonTree) -> bool {
    &&& transcript::is_kind(item, "message"@)
    &&& item.text_at("role"@) == Some("user"@)
    &&& match item.get("content"@) {
        Some(JsonTree::Text(text)) => is_compact_text(text),
        Some(JsonTree::Array(parts)) => has_compact_part(parts),
        _ => false,
    }
}

/// Whether one of the parts of a message is that instruction.
pub open spec fn has_compact_part(parts: Seq<JsonTree>) -> bool {
    exists|i: int| 0 <= i < parts.len() && part_is_compact(#[trigger] parts[i])
}

/// Whether a part of a message is that instruction.
pub open spec fn part_is_compact(part: JsonTree) -> bool {
    part.text_at("text"@) matches Some(text) && is_compact_text(text)
}

/// Whether a text is the instruction to summarise the conversation.
pub fn is_compact_message_text(text: &str) -> (result: bool)
    ensures
        result == is_compact_text(text@),
{
    contains_text(text, "CRITICAL: Respond with TEXT ONLY. Do NOT call any tools.")
        && contains_text(
        text,
        "Your task is to create a detailed summary of the conversation so far",
    )
}

/// Whether an item is the user message with the instruction to summarise the conversation.
pub fn is_portable_compact_message(item: &Json) -> (result: bool)
    ensures
        result == is_portable_message(item@),
{
    broadcast use json::lemma_array_view;

    if !item.text_at_is("type", "message") || !item.text_at_is("role", "user") {
        return false;
    }
    match item.get("content") {
        Some(Json::Text(text)) => is_compact_message_text(text.as_str()),
        Some(Json::Array(parts)) => {
            let ghost held = json::trees(parts@);
            let mut i: usize = 0;
            while i < parts.len()
                invariant
                    i <= parts@.len(),
                    held == json::trees(parts@),
                    item@.get("content"@) == Some(JsonTree::Array(held)),
                    transcript::is_kind(item@, "message"@),
                    item@.text_at("role"@) == Some("user"@),
                    forall|j: int| 0 <= j < i ==> !part_is_compact(#[trigger] held[j]),
                decreases parts@.len() - i,
            {
                if let Some(text) = parts[i].text_at("text") {
                    if is_compact_message_text(text) {
                        assert(part_is_compact(held[i as int]));
                        assert(has_compact_part(held));
                        return true;
                    }
                }
                i = i + 1;
            }
            false
        },
        _ => false,
    }
}

/// The values that fragments spell.
pub open spec fn fragment_values(fragments: Seq<Seq<char>>) -> Seq<JsonTree> {
    Seq::new(fragments.len(), |i: int| parsing::parsed(fragments[i])->0)
}

/// Whether each fragment spells a value.
pub open spec fn all_parse(fragments: Seq<Seq<char>>) -> bool {
    forall|i: int| 0 <= i < fragments.len() ==> parsing::parsed(#[trigger] fragments[i]) is Some
}

/// How many items of the stored transcript a summary request left out.
pub open spec fn missing_items(state: StateView, conversation: Seq<JsonTree>) -> int {
    state.source_prefix_count - (conversation.len() - 1)
}

/// Whether the summary request `conversation` left out the items that stand at position `cutoff`
/// behind the compaction item of the state: what it kept, with those items behind it, is the
/// transcript that the state was made for.
pub open spec fn is_cutoff(state: StateView, conversation: Seq<JsonTree>, cutoff: int) -> bool {
    let missing = missing_items(state, conversation);
    let suffix = fragment_values(state.raw_suffix_json);
    &&& conversation.len() > 0
    &&& is_portable_message(conversation.last())
    &&& missing > 0
    &&& all_parse(state.raw_suffix_json)
    &&& 0 <= cutoff
    &&& cutoff + missing <= suffix.len()
    &&& transcript::transcript_digest(
        conversation.drop_last() + suffix.subrange(cutoff, cutoff + missing),
    ) == state.source_prefix_sha256
}

/// Whether `cutoff` is the only cutoff.
pub open spec fn is_only_cutoff(state: StateView, conversation: Seq<JsonTree>, cutoff: int) -> bool {
    is_cutoff(state, conversation, cutoff) && forall|other: int| #[trigger]
        is_cutoff(state, conversation, other) ==> other == cutoff
}

/// The values that fragments spell, where each spells one.
fn parse_fragments(fragments: &Vec<String>) -> (values: Option<Vec<Json>>)
    ensures
        match values {
            Some(values) => all_parse(text::texts(fragments@)) && json::trees(values@)
                == fragment_values(text::texts(fragments@)),
            None => !all_parse(text::texts(fragments@)),
        },
{
    broadcast use json::lemma_trees_push;

    let ghost held = text::texts(fragments@);
    let ghost wanted = fragment_values(held);
    let mut values: Vec<Json> = Vec::new();
    let mut i: usize = 0;
    while i < fragments.len()
        invariant
            i <= fragments@.len(),
            held == text::texts(fragments@),
            wanted == fragment_values(held),
            json::trees(values@) == wanted.take(i as int),
            forall|j: int| 0 <= j < i ==> parsing::parsed(#[trigger] held[j]) is Some,
        decreases fragments@.len() - i,
    {
        match parse_json(fragments[i].as_str()) {
            Some(value) => {
                assert(parsing::parsed(held[i as int]) == Some(value@));
                values.push(value);
            },
            None => {
                assert(parsing::parsed(held[i as int]) is None);
                return None;
            },
        }
        i = i + 1;
        assert(wanted.take(i as int) =~= wanted.take(i - 1).push(wanted[i - 1]));
    }
    assert(wanted.take(i as int) =~= wanted);
    Some(values)
}

/// Appends copies of the values from position `from` up to position `to`.
fn append_values(target: &mut Vec<Json>, values: &[Json], from: usize, to: usize)
    requires
        from <= to <= values@.len(),
    ensures
        json::trees(final(target)@) == json::trees(old(target)@) + json::trees(values@).subrange(
            from as int,
            to as int,
        ),
{
    broadcast use json::lemma_trees_push;

    let ghost before = json::trees(target@);
    let ghost held = json::trees(values@);
    let mut i: usize = from;
    assert(before + held.subrange(from as int, from as int) =~= before);
    while i < to
        invariant
            from <= i <= to <= values@.len(),
            held == json::trees(values@),
            json::trees(target@) == before + held.subrange(from as int, i as int),
        decreases to - i,
    {
        target.push(values[i].clone());
        i = i + 1;
        assert(before + held.subrange(from as int, i as int) =~= (before + held.subrange(
            from as int,
            i - 1,
        )).push(values@[i - 1]@));
    }
}

/// Where the state is cut off for a request to summarise the conversation that left out its latest
/// items, and the position of the instruction in the request. There is a plan only where one
/// cutoff, and no other, restores the transcript that the state was made for.
pub fn portable_replay_plan(state: &SidecarState, conversation: &[Json]) -> (plan: Option<
    (usize, usize),
>)
    ensures
        match plan {
            Some((cutoff, marker)) => is_only_cutoff(
                state@,
                json::trees(conversation@),
                cutoff as int,
            ) && marker == conversation@.len() - 1 && cutoff <= state.raw_suffix_json@.len(),
            None => forall|cutoff: int| !is_only_cutoff(
                state@,
                json::trees(conversation@),
                cutoff,
            ),
        },
{
    let ghost items = json::trees(conversation@);
    if conversation.len() == 0 {
        return None;
    }
    let marker_index: usize = conversation.len() - 1;
    if !is_portable_compact_message(&conversation[marker_index]) {
        assert(items.last() == conversation@[marker_index as int]@);
        return None;
    }
    if marker_index >= state.source_prefix_count {
        return None;
    }
    let missing: usize = state.source_prefix_count - marker_index;
    let suffix = match parse_fragments(&state.raw_suffix_json) {
        Some(suffix) => suffix,
        None => {
            return None;
        },
    };
    let ghost values = fragment_values(state@.raw_suffix_json);
    if missing > suffix.len() {
        return None;
    }
    let last: usize = suffix.len() - missing;
    let mut matching: Option<usize> = None;
    let mut cutoff: usize = 0;
    assert(items.last() == conversation@[marker_index as int]@);
    while cutoff <= last
        invariant
            cutoff <= last + 1,
            last + missing == suffix@.len(),
            suffix@.len() == state.raw_suffix_json@.len(),
            suffix@.len() <= usize::MAX,
            marker_index == conversation@.len() - 1,
            missing == missing_items(state@, items),
            missing > 0,
            items == json::trees(conversation@),
            is_portable_message(items.last()),
            all_parse(state@.raw_suffix_json),
            values == fragment_values(state@.raw_suffix_json),
            values == json::trees(suffix@),
            match matching {
                Some(found) => found < cutoff && is_cutoff(state@, items, found as int)
                    && forall|other: int|
                    0 <= other < cutoff && #[trigger] is_cutoff(state@, items, other) ==> other
                        == found,
                None => forall|other: int|
                    0 <= other < cutoff ==> !#[trigger] is_cutoff(state@, items, other),
            },
        decreases last + 1 - cutoff,
    {
        let mut reconstructed: Vec<Json> = Vec::new();
        append_values(&mut reconstructed, conversation, 0, marker_index);
        append_values(&mut reconstructed, suffix.as_slice(), cutoff, cutoff + missing);
        assert(json::trees(reconstructed@) =~= items.drop_last() + values.subrange(
            cutoff as int,
            cutoff + missing,
        ));
        let hash = hash_transcript(reconstructed.as_slice());
        if same_text(hash.as_str(), state.source_prefix_sha256.as_str()) {
            assert(is_cutoff(state@, items, cutoff as int));
            if let Some(found) = matching {
                assert forall|other: int| !is_only_cutoff(state@, items, other) by {
                    assert(is_cutoff(state@, items, found as int));
                    assert(is_cutoff(state@, items, cutoff as int));
                }
                return None;
            }
            matching = Some(cutoff);
        } else {
            assert(!is_cutoff(state@, items, cutoff as int));
        }
        cutoff = cutoff + 1;
    }
    assert forall|other: int| #[trigger] is_cutoff(state@, items, other) implies 0 <= other
        < cutoff by {}
    match matching {
        Some(found) => Some((found, marker_index)),
        None => None,
    }
}

/// Whether an item has the type and the digest that are expected.
pub open spec fn is_as_expected(expected: RecognitionView, item: JsonTree) -> bool {
    &&& expected.kind == item.text_at("type"@)
    &&& recognition::identifying(item) is Some
    &&& expected.sha256 == Some(
        digest::text_fingerprint(encoding::encoded(recognition::identifying(item)->0)),
    )
}

/// Whether the output `expected` accounts for the items of a transcript from position `from` up to
/// position `to`: `places` tells where the transcript stands before each expected item and behind
/// the last. An expected item is the item at its place, by its type and its digest, or it is
/// reasoning that the transcript leaves out where it would stand.
pub open spec fn accounts_for(
    expected: Seq<RecognitionView>,
    conversation: Seq<JsonTree>,
    from: int,
    to: int,
    places: Seq<int>,
) -> bool {
    &&& places.len() == expected.len() + 1
    &&& places[0] == from
    &&& places.last() == to
    &&& forall|i: int|
        #![trigger expected[i]]
        0 <= i < expected.len() ==> {
            ||| {
                &&& 0 <= places[i] < conversation.len()
                &&& is_as_expected(expected[i], conversation[places[i]])
                &&& places[i + 1] == places[i] + 1
            }
            ||| {
                &&& expected[i].kind == Some("reasoning"@)
                &&& places[i] < conversation.len() ==> conversation[places[i]].text_at("type"@)
                    != Some("reasoning"@)
                &&& places[i + 1] == places[i]
            }
        }
}

/// Where the transcript stands before each expected item, and behind the last.
proof fn lemma_accounts_for(
    expected: Seq<RecognitionView>,
    conversation: Seq<JsonTree>,
    at: int,
) -> (places: Seq<int>)
    requires
        0 <= at,
        behind_expected(expected, conversation, at) is Some,
    ensures
        accounts_for(
            expected,
            conversation,
            at,
            behind_expected(expected, conversation, at)->0,
            places,
        ),
    decreases expected.len(),
{
    if expected.len() == 0 {
        seq![at]
    } else {
        let rest = expected.drop_first();
        let present = at < conversation.len() && (expected[0].kind == Some("reasoning"@)
            ==> conversation[at].text_at("type"@) == Some("reasoning"@));
        let next = if present {
            at + 1
        } else {
            at
        };
        let later = lemma_accounts_for(rest, conversation, next);
        let places = seq![at] + later;
        assert forall|i: int| #![trigger expected[i]] 0 <= i < expected.len() implies ({
            ||| {
                &&& 0 <= places[i] < conversation.len()
                &&& is_as_expected(expected[i], conversation[places[i]])
                &&& places[i + 1] == places[i] + 1
            }
            ||| {
                &&& expected[i].kind == Some("reasoning"@)
                &&& places[i] < conversation.len() ==> conversation[places[i]].text_at("type"@)
                    != Some("reasoning"@)
                &&& places[i + 1] == places[i]
            }
        }) by {
            if i > 0 {
                assert(rest[i - 1] == expected[i]);
                assert(places[i] == later[i - 1] && places[i + 1] == later[i]);
            } else {
                assert(places[1] == later[0]);
            }
        }
        places
    }
}

/// What the expected items account for leads behind them.
proof fn lemma_behind_accounted(
    expected: Seq<RecognitionView>,
    conversation: Seq<JsonTree>,
    at: int,
    to: int,
    places: Seq<int>,
)
    requires
        0 <= at,
        accounts_for(expected, conversation, at, to, places),
    ensures
        behind_expected(expected, conversation, at) == Some(to),
    decreases expected.len(),
{
    if expected.len() > 0 {
        let rest = expected.drop_first();
        let later = places.drop_first();
        assert(expected[0] == expected[0]);
        assert forall|i: int| #![trigger rest[i]] 0 <= i < rest.len() implies ({
            ||| {
                &&& 0 <= later[i] < conversation.len()
                &&& is_as_expected(rest[i], conversation[later[i]])
                &&& later[i + 1] == later[i] + 1
            }
            ||| {
                &&& rest[i].kind == Some("reasoning"@)
                &&& later[i] < conversation.len() ==> conversation[later[i]].text_at("type"@)
                    != Some("reasoning"@)
                &&& later[i + 1] == later[i]
            }
        }) by {
            assert(rest[i] == expected[i + 1]);
            assert(later[i] == places[i + 1] && later[i + 1] == places[i + 2]);
        }
        lemma_behind_accounted(rest, conversation, places[1], to, later);
    }
}

/// A transcript that continues a state begins with the items that the state was made for, by their
/// number and their digest, and behind them the output that the state recorded accounts for every
/// item up to the place where it continues: each is an item of that output, by its type and its
/// digest, in the same order, and of that output only reasoning is left out. Where there was an
/// output, one of its items is more than reasoning.
pub proof fn law_continuation_is_recognised(state: StateView, conversation: Seq<JsonTree>) -> (places:
    Seq<int>)
    requires
        replay_point(state, conversation) is Some,
    ensures
        state.source_prefix_count <= conversation.len(),
        ({
            let prefix = conversation.take(state.source_prefix_count as int);
            transcript::list_digest(prefix) == state.source_prefix_sha256
                || transcript::transcript_digest(prefix) == state.source_prefix_sha256
        }),
        accounts_for(
            state.last_output_match,
            conversation,
            state.source_prefix_count as int,
            replay_point(state, conversation)->0,
            places,
        ),
        state.last_output_match.len() > 0 ==> exists|i: int|
            0 <= i < state.last_output_match.len() && (
            #[trigger] state.last_output_match[i]).kind != Some("reasoning"@),
{
    let expected = state.last_output_match;
    if expected.len() > 0 {
        let i = choose|i: int| 0 <= i < expected.len() && !expects_reasoning(#[trigger] expected[i]);
        assert(expected[i].kind != Some("reasoning"@));
    }
    lemma_accounts_for(expected, conversation, state.source_prefix_count as int)
}

/// A transcript continues a state at `to` where it begins with the items that the state was made
/// for and the output that the state recorded, one of whose items is more than reasoning, accounts
/// for what stands between them and `to`.
pub proof fn law_recognised_output_is_continued(
    state: StateView,
    conversation: Seq<JsonTree>,
    to: int,
    places: Seq<int>,
)
    requires
        state.source_prefix_count <= conversation.len(),
        ({
            let prefix = conversation.take(state.source_prefix_count as int);
            transcript::list_digest(prefix) == state.source_prefix_sha256
                || transcript::transcript_digest(prefix) == state.source_prefix_sha256
        }),
        accounts_for(
            state.last_output_match,
            conversation,
            state.source_prefix_count as int,
            to,
            places,
        ),
        state.last_output_match.len() > 0 ==> exists|i: int|
            0 <= i < state.last_output_match.len() && (
            #[trigger] state.last_output_match[i]).kind != Some("reasoning"@),
    ensures
        replay_point(state, conversation) == Some(to),
{
    let expected = state.last_output_match;
    lemma_behind_accounted(expected, conversation, state.source_prefix_count as int, to, places);
    if expected.len() > 0 {
        let i = choose|i: int|
            0 <= i < expected.len() && (#[trigger] expected[i]).kind != Some("reasoning"@);
        assert(!expects_reasoning(expected[i]));
    }
}

/// An output without reasoning leads behind it just where each of its items stands in its place.
proof fn lemma_plain_output(
    expected: Seq<RecognitionView>,
    conversation: Seq<JsonTree>,
    at: int,
)
    requires
        0 <= at <= conversation.len(),
        forall|i: int|
            0 <= i < expected.len() ==> (#[trigger] expected[i]).kind != Some("reasoning"@),
    ensures
        (at + expected.len() <= conversation.len() && forall|i: int|
            0 <= i < expected.len() ==> is_as_expected(
                #[trigger] expected[i],
                conversation[at + i],
            )) ==> behind_expected(expected, conversation, at) == Some(
            (at + expected.len()) as int,
        ),
        !(at + expected.len() <= conversation.len() && forall|i: int|
            0 <= i < expected.len() ==> is_as_expected(
                #[trigger] expected[i],
                conversation[at + i],
            )) ==> behind_expected(expected, conversation, at) is None,
    decreases expected.len(),
{
    if expected.len() > 0 {
        let rest = expected.drop_first();
        assert forall|i: int| 0 <= i < rest.len() implies (#[trigger] rest[i]).kind != Some(
            "reasoning"@,
        ) by {
            assert(rest[i] == expected[i + 1]);
        }
        assert(expected[0].kind != Some("reasoning"@));
        if at < conversation.len() {
            lemma_plain_output(rest, conversation, at + 1);
            if is_as_expected(expected[0], conversation[at]) {
                assert((forall|i: int|
                    0 <= i < expected.len() ==> is_as_expected(
                        #[trigger] expected[i],
                        conversation[at + i],
                    )) <==> (forall|i: int|
                    0 <= i < rest.len() ==> is_as_expected(
                        #[trigger] rest[i],
                        conversation[(at + 1) + i],
                    ))) by {
                    if forall|i: int|
                        0 <= i < expected.len() ==> is_as_expected(
                            #[trigger] expected[i],
                            conversation[at + i],
                        ) {
                        assert forall|i: int| 0 <= i < rest.len() implies is_as_expected(
                            #[trigger] rest[i],
                            conversation[(at + 1) + i],
                        ) by {
                            assert(is_as_expected(expected[i + 1], conversation[at + (i + 1)]));
                        }
                    }
                    if forall|i: int|
                        0 <= i < rest.len() ==> is_as_expected(
                            #[trigger] rest[i],
                            conversation[(at + 1) + i],
                        ) {
                        assert forall|i: int| 0 <= i < expected.len() implies is_as_expected(
                            #[trigger] expected[i],
                            conversation[at + i],
                        ) by {
                            if i > 0 {
                                assert(is_as_expected(
                                    rest[i - 1],
                                    conversation[(at + 1) + (i - 1)],
                                ));
                            }
                        }
                    }
                }
            } else {
                assert(!is_as_expected(expected[0], conversation[at + 0]));
            }
        }
    }
}

/// A state whose output held no reasoning is continued just where the transcript begins with the
/// items that the state was made for and each item of the output stands behind them in its place:
/// one item with another type or another digest there, or one that is missing, and it is not.
pub proof fn law_output_without_reasoning_stands_in_its_place(
    state: StateView,
    conversation: Seq<JsonTree>,
)
    requires
        forall|i: int|
            0 <= i < state.last_output_match.len() ==> (
            #[trigger] state.last_output_match[i]).kind != Some("reasoning"@),
    ensures
        ({
            let count = state.source_prefix_count as int;
            let prefix = conversation.take(count);
            let expected = state.last_output_match;
            let continues = count + expected.len() <= conversation.len() && (
            transcript::list_digest(prefix) == state.source_prefix_sha256
                || transcript::transcript_digest(prefix) == state.source_prefix_sha256)
                && forall|i: int|
                0 <= i < expected.len() ==> is_as_expected(
                    #[trigger] expected[i],
                    conversation[count + i],
                );
            &&& continues ==> replay_point(state, conversation) == Some(
                (count + expected.len()) as int,
            )
            &&& !continues ==> replay_point(state, conversation) is None
        }),
{
    let count = state.source_prefix_count as int;
    if count <= conversation.len() {
        lemma_plain_output(state.last_output_match, conversation, count);
    }
    if state.last_output_match.len() > 0 {
        assert(!expects_reasoning(state.last_output_match[0]));
    }
}

/// A message asks for a summary just where it is one of the user and its content, or the text of one
/// of its parts, holds both sentences of the instruction, wherever they stand.
pub proof fn law_summary_instruction_is_told_by_two_sentences(item: JsonTree)
    ensures
        is_portable_message(item) <==> {
            &&& item.text_at("type"@) == Some("message"@)
            &&& item.text_at("role"@) == Some("user"@)
            &&& exists|text: Seq<char>, a: int, b: int|
                #![trigger tells_sentences(text, a, b)]
                tells_sentences(text, a, b) && match item.get("content"@) {
                    Some(JsonTree::Text(content)) => content == text,
                    Some(JsonTree::Array(parts)) => exists|i: int|
                        0 <= i < parts.len() && (#[trigger] parts[i]).text_at("text"@) == Some(
                            text,
                        ),
                    _ => false,
                }
        },
{
    if is_portable_message(item) {
        let text = match item.get("content"@)->0 {
            JsonTree::Text(content) => content,
            JsonTree::Array(parts) => {
                let i = choose|i: int| 0 <= i < parts.len() && part_is_compact(#[trigger] parts[i]);
                parts[i].text_at("text"@)->0
            },
            _ => Seq::empty(),
        };
        let first = "CRITICAL: Respond with TEXT ONLY. Do NOT call any tools."@;
        let second = "Your task is to create a detailed summary of the conversation so far"@;
        let a = choose|a: int| parts::stands_at(text, first, a);
        let b = choose|b: int| parts::stands_at(text, second, b);
        assert(tells_sentences(text, a, b));
        if let JsonTree::Array(parts) = item.get("content"@)->0 {
            let i = choose|i: int| 0 <= i < parts.len() && part_is_compact(#[trigger] parts[i]);
            assert(parts[i].text_at("text"@) == Some(text));
        }
    }
    if item.text_at("type"@) == Some("message"@) && item.text_at("role"@) == Some("user"@) {
        assert forall|text: Seq<char>, a: int, b: int| #[trigger]
            tells_sentences(text, a, b) implies is_compact_text(text) by {
            let first = "CRITICAL: Respond with TEXT ONLY. Do NOT call any tools."@;
            let second = "Your task is to create a detailed summary of the conversation so far"@;
            assert(parts::stands_at(text, first, a));
            assert(parts::stands_at(text, second, b));
        }
        if exists|text: Seq<char>, a: int, b: int|
            #![trigger tells_sentences(text, a, b)]
            tells_sentences(text, a, b) && match item.get("content"@) {
                Some(JsonTree::Text(content)) => content == text,
                Some(JsonTree::Array(parts)) => exists|i: int|
                    0 <= i < parts.len() && (#[trigger] parts[i]).text_at("text"@) == Some(text),
                _ => false,
            } {
            let (text, a, b) = choose|text: Seq<char>, a: int, b: int|
                #![trigger tells_sentences(text, a, b)]
                tells_sentences(text, a, b) && match item.get("content"@) {
                    Some(JsonTree::Text(content)) => content == text,
                    Some(JsonTree::Array(parts)) => exists|i: int|
                        0 <= i < parts.len() && (#[trigger] parts[i]).text_at("text"@) == Some(
                            text,
                        ),
                    _ => false,
                };
            assert(is_compact_text(text));
            if let Some(JsonTree::Array(parts)) = item.get("content"@) {
                let i = choose|i: int|
                    0 <= i < parts.len() && (#[trigger] parts[i]).text_at("text"@) == Some(text);
                assert(part_is_compact(parts[i]));
            }
        }
    }
}

/// Whether the two sentences of the instruction to summarise stand in a text, at positions `a` and
/// `b`.
pub open spec fn tells_sentences(text: Seq<char>, a: int, b: int) -> bool {
    let first = "CRITICAL: Respond with TEXT ONLY. Do NOT call any tools."@;
    let second = "Your task is to create a detailed summary of the conversation so far"@;
    &&& 0 <= a && a + first.len() <= text.len() && text.subrange(a, a + first.len()) == first
    &&& 0 <= b && b + second.len() <= text.len() && text.subrange(b, b + second.len()) == second
}

/// A summary request that left items out, before its instruction, left them out at a cutoff just
/// where these items, read out of the fragments of the state, make up with those that it kept the
/// transcript that the state was made for, by its number of items and its digest.
pub proof fn law_cutoff_restores_the_transcript(
    state: StateView,
    conversation: Seq<JsonTree>,
    cutoff: int,
    kept: Seq<JsonTree>,
    left_out: Seq<JsonTree>,
)
    requires
        conversation.len() > 0,
        is_portable_message(conversation.last()),
        conversation.drop_last() == kept,
        0 <= cutoff,
        cutoff + left_out.len() <= state.raw_suffix_json.len(),
        forall|i: int|
            0 <= i < state.raw_suffix_json.len() ==> parsing::parsed(
                #[trigger] state.raw_suffix_json[i],
            ) is Some,
        forall|i: int|
            0 <= i < left_out.len() ==> parsing::parsed(state.raw_suffix_json[cutoff + i]) == Some(
                #[trigger] left_out[i],
            ),
        kept.len() + left_out.len() == state.source_prefix_count,
    ensures
        is_cutoff(state, conversation, cutoff) <==> left_out.len() > 0
            && transcript::transcript_digest(kept + left_out) == state.source_prefix_sha256,
{
    let values = fragment_values(state.raw_suffix_json);
    assert(values.subrange(cutoff, cutoff + left_out.len()) =~= left_out) by {
        assert forall|i: int| 0 <= i < left_out.len() implies values.subrange(
            cutoff,
            cutoff + left_out.len(),
        )[i] == #[trigger] left_out[i] by {}
    }
}

}
