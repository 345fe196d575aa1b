//! The fingerprint of what a request means apart from its conversation.

use vstd::prelude::*;
use vstd::string::*;

use crate::canonical::canonical_json;
use crate::canonical;
use crate::digest::hash_json;
use crate::digest;
use crate::encoding;
use crate::json::{push_member, text_values, Json, JsonTree, Member, MemberTree};
use crate::json;
use crate::parts::{contains_text, join_texts, split_text, to_lower_case, trim};
use crate::parts;
use crate::request::{
    management_values, ResponsesContextManagement, ResponsesInputItem, ResponsesRequest,
};
use crate::request;
use crate::spelling;
use crate::text::same_text;
use crate::text;

verus! {

/// A line that announces a status.
pub open spec fn is_status_header(line: Seq<char>) -> bool {
    parts::lower_case(parts::trimmed(line)) == "status:"@
}

/// A line that speaks of git.
pub open spec fn mentions_git(line: Seq<char>) -> bool {
    parts::contains(parts::lower_case(line), "git"@)
}

/// Whether one of the eight lines before line `index` speaks of git.
pub open spec fn git_nearby(lines: Seq<Seq<char>>, index: int) -> bool {
    exists|j: int| 0 <= j && index - 8 <= j < index && mentions_git(#[trigger] lines[j])
}

/// Whether line `index` announces the git status.
pub open spec fn is_git_status(lines: Seq<Seq<char>>, index: int) -> bool {
    is_status_header(lines[index]) && git_nearby(lines, index)
}

/// Where the block of lines that begins at line `index` ends: at the next blank line.
pub open spec fn block_end(lines: Seq<Seq<char>>, index: int) -> int
    decreases lines.len() - index,
{
    if index < lines.len() && parts::trimmed(lines[index]).len() > 0 {
        block_end(lines, index + 1)
    } else {
        index
    }
}

/// The lines from line `index` on, with a fixed line in place of each git status.
pub open spec fn stable_lines(lines: Seq<Seq<char>>, index: int) -> Seq<Seq<char>>
    decreases lines.len() - index,
    via stable_lines_decreases
{
    if index >= lines.len() {
        Seq::empty()
    } else if is_git_status(lines, index) {
        seq![lines[index], "<runtime-git-status>"@] + stable_lines(lines, block_end(lines, index + 1))
    } else {
        seq![lines[index]] + stable_lines(lines, index + 1)
    }
}

#[via_fn]
proof fn stable_lines_decreases(lines: Seq<Seq<char>>, index: int) {
    if index < lines.len() {
        lemma_block_end(lines, index + 1);
    }
}

/// A block does not end before it begins.
proof fn lemma_block_end(lines: Seq<Seq<char>>, index: int)
    requires
        index <= lines.len(),
    ensures
        index <= block_end(lines, index) <= lines.len(),
        forall|j: int|
            index <= j < block_end(lines, index) ==> parts::trimmed(#[trigger] lines[j]).len() > 0,
    decreases lines.len() - index,
{
    if index < lines.len() && parts::trimmed(lines[index]).len() > 0 {
        lemma_block_end(lines, index + 1);
    }
}

/// Instructions with a fixed line in place of each git status in them.
pub open spec fn stable(instructions: Seq<char>) -> Seq<char> {
    parts::joined(stable_lines(parts::split(instructions, '\n'), 0), '\n')
}

/// Whether one of the eight lines before line `index` speaks of git.
fn has_git_nearby(lines: &Vec<String>, index: usize) -> (found: bool)
    requires
        index <= lines@.len(),
    ensures
        found == git_nearby(text::texts(lines@), index as int),
{
    let ghost held = text::texts(lines@);
    let mut i: usize = if index > 8 {
        index - 8
    } else {
        0
    };
    let start: usize = i;
    while i < index
        invariant
            start <= i <= index <= lines@.len(),
            index - 8 <= start,
            held == text::texts(lines@),
            forall|j: int| start <= j < i ==> !mentions_git(#[trigger] held[j]),
        decreases index - i,
    {
        let line = to_lower_case(lines[i].as_str());
        if contains_text(line.as_str(), "git") {
            assert(mentions_git(held[i as int]));
            return true;
        }
        i = i + 1;
    }
    false
}

/// Instructions with a fixed line in place of each git status in them.
pub fn stable_instructions(instructions: &str) -> (result: String)
    ensures
        result@ == stable(instructions@),
{
    broadcast use text::lemma_texts_push;

    let lines = split_text(instructions, '\n');
    let ghost held = text::texts(lines@);
    let mut normalized: Vec<String> = Vec::new();
    let mut index: usize = 0;
    assert(text::texts(normalized@) + stable_lines(held, 0) =~= stable_lines(held, 0));
    while index < lines.len()
        invariant
            index <= lines@.len(),
            held == text::texts(lines@),
            text::texts(normalized@) + stable_lines(held, index as int) == stable_lines(held, 0),
        decreases lines@.len() - index,
    {
        let ghost before = text::texts(normalized@);
        let line = trim(lines[index].as_str());
        let is_header = same_text(to_lower_case(line.as_str()).as_str(), "status:");
        normalized.push(lines[index].clone());
        if is_header && has_git_nearby(&lines, index) {
            normalized.push("<runtime-git-status>".to_owned());
            let ghost start = index as int;
            index = index + 1;
            while index < lines.len() && !trim(lines[index].as_str()).as_str().is_empty()
                invariant
                    start < index <= lines@.len(),
                    held == text::texts(lines@),
                    block_end(held, start + 1) == block_end(held, index as int),
                decreases lines@.len() - index,
            {
                index = index + 1;
            }
            assert(text::texts(normalized@) + stable_lines(held, index as int) =~= before
                + stable_lines(held, start));
        } else {
            index = index + 1;
            assert(text::texts(normalized@) + stable_lines(held, index as int) =~= before
                + stable_lines(held, index - 1));
        }
    }
    assert(text::texts(normalized@) + stable_lines(held, index as int) =~= text::texts(normalized@));
    join_texts(&normalized, '\n')
}

/// An optional text as a JSON value.
pub open spec fn text_tree(text: Option<Seq<char>>) -> Option<JsonTree> {
    match text {
        Some(text) => Some(JsonTree::Text(text)),
        None => None,
    }
}

/// What an optional value holds.
pub open spec fn held_tree(value: Option<Json>) -> Option<JsonTree> {
    match value {
        Some(value) => Some(value@),
        None => None,
    }
}

/// The instructions by which a request is recognised.
pub open spec fn stable_tree(instructions: Option<String>) -> Option<JsonTree> {
    match instructions {
        Some(instructions) => Some(JsonTree::Text(stable(instructions@))),
        None => None,
    }
}

/// The names of what a response is to hold besides its items, as a JSON value.
pub open spec fn names_tree(names: Option<Vec<String>>) -> Option<JsonTree> {
    match names {
        Some(names) => Some(JsonTree::Array(json::text_trees(names@))),
        None => None,
    }
}

/// The demands on context management, as a JSON value.
pub open spec fn demands_tree(demands: Option<Vec<ResponsesContextManagement>>) -> Option<JsonTree> {
    match demands {
        Some(demands) => Some(JsonTree::Array(request::management_trees(demands@))),
        None => None,
    }
}

/// The members by which a request is recognised: everything in it but its conversation, its cache
/// key and the controls that may change from turn to turn.
pub open spec fn fingerprint_members(
    request: ResponsesRequest,
    envelope: Seq<ResponsesInputItem>,
) -> Seq<MemberTree> {
    Seq::empty() + json::members_of("model"@, Some(JsonTree::Text(request.model@)))
        + json::members_of("instructions"@, stable_tree(request.instructions))
        + json::members_of("tools"@, held_tree(request.tools))
        + json::members_of("store"@, Some(JsonTree::Bool(request.store)))
        + json::members_of("stream"@, Some(JsonTree::Bool(request.stream)))
        + json::members_of("include"@, names_tree(request.included))
        + json::members_of("client_metadata"@, held_tree(request.client_metadata))
        + json::members_of("service_tier"@, text_tree(text::optional_text(request.service_tier)))
        + json::members_of("reasoning"@, held_tree(request.reasoning))
        + json::members_of("context_management"@, demands_tree(request.context_management))
        + json::members_of(
        "input_envelope"@,
        Some(JsonTree::Array(request::item_trees(envelope))),
    )
}

/// What the fingerprint of a request is the digest of: the encoding of the canonical form of those
/// members.
pub open spec fn fingerprint_input(
    request: ResponsesRequest,
    envelope: Seq<ResponsesInputItem>,
) -> Seq<char> {
    encoding::encoded(
        canonical::canonical(JsonTree::Object(fingerprint_members(request, envelope))),
    )
}

/// The fingerprint of a request.
pub open spec fn request_digest(
    request: ResponsesRequest,
    envelope: Seq<ResponsesInputItem>,
) -> Seq<char> {
    digest::text_fingerprint(fingerprint_input(request, envelope))
}

/// Appends the member `key` where there is a value.
fn push_optional(members: &mut Vec<Member>, key: &str, value: Option<Json>)
    ensures
        json::member_trees(final(members)@) == json::member_trees(old(members)@)
            + json::members_of(key@, held_tree(value)),
{
    let ghost held = held_tree(value);
    if let Some(value) = value {
        push_member(members, key, value);
    }
    assert(json::member_trees(members@) =~= json::member_trees(old(members)@) + json::members_of(
        key@,
        held,
    ));
}

/// A copy of an optional value.
fn copied(value: &Option<Json>) -> (copy: Option<Json>)
    ensures
        held_tree(copy) == held_tree(*value),
{
    match value {
        Some(value) => Some(value.clone()),
        None => None,
    }
}

/// The encodings of the items.
fn item_values(items: &[ResponsesInputItem]) -> (values: Vec<Json>)
    ensures
        json::trees(values@) == request::item_trees(items@),
{
    broadcast use json::lemma_trees_push;

    let ghost held = request::item_trees(items@);
    let mut values: Vec<Json> = Vec::new();
    let mut i: usize = 0;
    while i < items.len()
        invariant
            i <= items@.len(),
            held == request::item_trees(items@),
            json::trees(values@) == held.take(i as int),
        decreases items@.len() - i,
    {
        values.push(items[i].to_json());
        i = i + 1;
        assert(held.take(i as int) =~= held.take(i - 1).push(items@[i - 1].tree()));
    }
    assert(held.take(i as int) =~= held);
    values
}

/// The fingerprint of a request with the envelope `envelope`.
pub fn request_fingerprint(request: &ResponsesRequest, envelope: &[ResponsesInputItem]) -> (hash:
    String)
    ensures
        hash@ == request_digest(*request, envelope@),
{
    broadcast use {json::lemma_array_view, json::lemma_object_view};

    let instructions = match &request.instructions {
        Some(instructions) => Some(Json::Text(stable_instructions(instructions.as_str()))),
        None => None,
    };
    let names = match &request.included {
        Some(names) => Some(Json::Array(text_values(names))),
        None => None,
    };
    let tier = match &request.service_tier {
        Some(tier) => Some(Json::Text(tier.clone())),
        None => None,
    };
    let demands = match &request.context_management {
        Some(demands) => Some(Json::Array(management_values(demands))),
        None => None,
    };
    let envelope = item_values(envelope);
    let mut members: Vec<Member> = Vec::new();
    assert(json::member_trees(members@) =~= Seq::empty());
    push_optional(&mut members, "model", Some(Json::Text(request.model.clone())));
    push_optional(&mut members, "instructions", instructions);
    push_optional(&mut members, "tools", copied(&request.tools));
    push_optional(&mut members, "store", Some(Json::Bool(request.store)));
    push_optional(&mut members, "stream", Some(Json::Bool(request.stream)));
    push_optional(&mut members, "include", names);
    push_optional(&mut members, "client_metadata", copied(&request.client_metadata));
    push_optional(&mut members, "service_tier", tier);
    push_optional(&mut members, "reasoning", copied(&request.reasoning));
    push_optional(&mut members, "context_management", demands);
    push_optional(&mut members, "input_envelope", Some(Json::Array(envelope)));
    hash_json(&canonical_json(&Json::Object(members)))
}

/// Lines among which none announces the git status stay as they are.
proof fn lemma_plain_lines_stay(lines: Seq<Seq<char>>, index: int)
    requires
        0 <= index <= lines.len(),
        forall|i: int| index <= i < lines.len() ==> !is_git_status(lines, i),
    ensures
        stable_lines(lines, index) == lines.skip(index),
    decreases lines.len() - index,
{
    if index < lines.len() {
        assert(!is_git_status(lines, index));
        lemma_plain_lines_stay(lines, index + 1);
    }
    assert(stable_lines(lines, index) =~= lines.skip(index));
}

/// Instructions without a git status are fingerprinted as they are.
pub proof fn law_plain_instructions_stay(instructions: Seq<char>)
    requires
        forall|i: int|
            0 <= i < parts::split(instructions, '\n').len() ==> !is_git_status(
                parts::split(instructions, '\n'),
                i,
            ),
    ensures
        stable(instructions) == instructions,
{
    let lines = parts::split(instructions, '\n');
    lemma_plain_lines_stay(lines, 0);
    assert(lines.skip(0) =~= lines);
    parts::lemma_split_joined(instructions, '\n');
}

/// Whether no line is blank.
pub open spec fn no_blank_line(lines: Seq<Seq<char>>) -> bool {
    forall|i: int| 0 <= i < lines.len() ==> parts::trimmed(#[trigger] lines[i]).len() > 0
}

/// Whether the lines are none, or begin with a blank one and hold no status header.
pub open spec fn ends_status(lines: Seq<Seq<char>>) -> bool {
    &&& lines.len() > 0 ==> parts::trimmed(lines[0]).len() == 0
    &&& forall|i: int| 0 <= i < lines.len() ==> !is_status_header(#[trigger] lines[i])
}

/// A block that is full of lines up to a blank one, or up to the end, ends there.
proof fn lemma_block_end_at(lines: Seq<Seq<char>>, index: int, end: int)
    requires
        0 <= index <= end <= lines.len(),
        forall|j: int| index <= j < end ==> parts::trimmed(#[trigger] lines[j]).len() > 0,
        end < lines.len() ==> parts::trimmed(lines[end]).len() == 0,
    ensures
        block_end(lines, index) == end,
    decreases end - index,
{
    if index < end {
        lemma_block_end_at(lines, index + 1, end);
    }
}

/// What stands behind the git status is kept, whatever the status.
proof fn lemma_behind_status(front: Seq<Seq<char>>, block: Seq<Seq<char>>, rest: Seq<Seq<char>>)
    requires
        ends_status(rest),
    ensures
        stable_lines(front + block + rest, (front.len() + block.len()) as int) == rest,
{
    let lines = front + block + rest;
    let start = (front.len() + block.len()) as int;
    assert forall|i: int| start <= i < lines.len() implies !is_git_status(lines, i) by {
        assert(lines[i] == rest[i - start]);
    }
    lemma_plain_lines_stay(lines, start);
    assert(lines.skip(start) =~= rest);
}

/// The lines up to a git status announcement come out alike, whatever the status.
proof fn lemma_status_is_fixed(
    front: Seq<Seq<char>>,
    a: Seq<Seq<char>>,
    b: Seq<Seq<char>>,
    rest: Seq<Seq<char>>,
    index: int,
)
    requires
        0 <= index < front.len(),
        is_git_status(front, front.len() - 1),
        no_blank_line(a),
        no_blank_line(b),
        ends_status(rest),
    ensures
        stable_lines(front + a + rest, index) == stable_lines(front + b + rest, index),
    decreases front.len() - index,
{
    let (x, y) = (front + a + rest, front + b + rest);
    assert(forall|j: int| 0 <= j < front.len() ==> x[j] == front[j] && y[j] == front[j]);
    assert(git_nearby(x, index) == git_nearby(front, index)) by {
        assert(git_nearby(front, index) ==> git_nearby(x, index)) by {
            if git_nearby(front, index) {
                let j = choose|j: int|
                    0 <= j && index - 8 <= j < index && mentions_git(#[trigger] front[j]);
                assert(mentions_git(x[j]));
            }
        }
        assert(git_nearby(x, index) ==> git_nearby(front, index)) by {
            if git_nearby(x, index) {
                let j = choose|j: int|
                    0 <= j && index - 8 <= j < index && mentions_git(#[trigger] x[j]);
                assert(mentions_git(front[j]));
            }
        }
    }
    assert(git_nearby(y, index) == git_nearby(front, index)) by {
        assert(git_nearby(front, index) ==> git_nearby(y, index)) by {
            if git_nearby(front, index) {
                let j = choose|j: int|
                    0 <= j && index - 8 <= j < index && mentions_git(#[trigger] front[j]);
                assert(mentions_git(y[j]));
            }
        }
        assert(git_nearby(y, index) ==> git_nearby(front, index)) by {
            if git_nearby(y, index) {
                let j = choose|j: int|
                    0 <= j && index - 8 <= j < index && mentions_git(#[trigger] y[j]);
                assert(mentions_git(front[j]));
            }
        }
    }
    if is_git_status(front, index) {
        let end = block_end(front, index + 1);
        lemma_block_end(front, index + 1);
        if end < front.len() {
            lemma_block_stops(front, index + 1);
            lemma_block_end_at(x, index + 1, end);
            lemma_block_end_at(y, index + 1, end);
            lemma_status_is_fixed(front, a, b, rest, end);
        } else {
            let (m, n) = ((front.len() + a.len()) as int, (front.len() + b.len()) as int);
            assert forall|j: int| index + 1 <= j < m implies parts::trimmed(
                #[trigger] x[j],
            ).len() > 0 by {
                if j < front.len() {
                    assert(x[j] == front[j]);
                } else {
                    assert(x[j] == a[j - front.len()]);
                }
            }
            assert forall|j: int| index + 1 <= j < n implies parts::trimmed(
                #[trigger] y[j],
            ).len() > 0 by {
                if j < front.len() {
                    assert(y[j] == front[j]);
                } else {
                    assert(y[j] == b[j - front.len()]);
                }
            }
            if rest.len() > 0 {
                assert(x[m] == rest[0]);
                assert(y[n] == rest[0]);
            }
            lemma_block_end_at(x, index + 1, m);
            lemma_block_end_at(y, index + 1, n);
            lemma_behind_status(front, a, rest);
            lemma_behind_status(front, b, rest);
        }
    } else {
        lemma_status_is_fixed(front, a, b, rest, index + 1);
    }
}

/// A block that ends before the last line ends at a blank one.
proof fn lemma_block_stops(lines: Seq<Seq<char>>, index: int)
    requires
        index <= lines.len(),
        block_end(lines, index) < lines.len(),
    ensures
        parts::trimmed(lines[block_end(lines, index)]).len() == 0,
    decreases lines.len() - index,
{
    if index < lines.len() && parts::trimmed(lines[index]).len() > 0 {
        lemma_block_stops(lines, index + 1);
    }
}

/// Instructions that differ only in the lines of a git status, up to the blank line that ends it,
/// have one fingerprint, where no further status header follows.
pub proof fn law_git_status_is_normalised(
    x: Seq<char>,
    y: Seq<char>,
    front: Seq<Seq<char>>,
    a: Seq<Seq<char>>,
    b: Seq<Seq<char>>,
    rest: Seq<Seq<char>>,
)
    requires
        parts::split(x, '\n') == front + a + rest,
        parts::split(y, '\n') == front + b + rest,
        front.len() > 0,
        is_git_status(front, front.len() - 1),
        no_blank_line(a),
        no_blank_line(b),
        ends_status(rest),
    ensures
        stable(x) == stable(y),
{
    lemma_status_is_fixed(front, a, b, rest, 0);
}

/// The member of a request under the key `key`, among those by which it is recognised.
pub open spec fn meaning(
    request: ResponsesRequest,
    envelope: Seq<ResponsesInputItem>,
    key: Seq<char>,
) -> Option<JsonTree> {
    if key == "model"@ {
        Some(JsonTree::Text(request.model@))
    } else if key == "instructions"@ {
        stable_tree(request.instructions)
    } else if key == "tools"@ {
        held_tree(request.tools)
    } else if key == "store"@ {
        Some(JsonTree::Bool(request.store))
    } else if key == "stream"@ {
        Some(JsonTree::Bool(request.stream))
    } else if key == "include"@ {
        names_tree(request.included)
    } else if key == "client_metadata"@ {
        held_tree(request.client_metadata)
    } else if key == "service_tier"@ {
        text_tree(text::optional_text(request.service_tier))
    } else if key == "reasoning"@ {
        held_tree(request.reasoning)
    } else if key == "context_management"@ {
        demands_tree(request.context_management)
    } else if key == "input_envelope"@ {
        Some(JsonTree::Array(request::item_trees(envelope)))
    } else {
        None
    }
}

/// What is found among the members by which a request is recognised.
proof fn lemma_meaning(
    request: ResponsesRequest,
    envelope: Seq<ResponsesInputItem>,
    key: Seq<char>,
)
    ensures
        json::lookup(fingerprint_members(request, envelope), key) == meaning(
            request,
            envelope,
            key,
        ),
{
    reveal_strlit("model");
    reveal_strlit("instructions");
    reveal_strlit("tools");
    reveal_strlit("store");
    reveal_strlit("stream");
    reveal_strlit("include");
    reveal_strlit("client_metadata");
    reveal_strlit("service_tier");
    reveal_strlit("reasoning");
    reveal_strlit("context_management");
    reveal_strlit("input_envelope");
    assert("model"@.len() == 5);
    assert("instructions"@.len() == 12);
    assert("tools"@.len() == 5);
    assert("store"@.len() == 5);
    assert("stream"@.len() == 6);
    assert("include"@.len() == 7);
    assert("client_metadata"@.len() == 15);
    assert("service_tier"@.len() == 12);
    assert("reasoning"@.len() == 9);
    assert("context_management"@.len() == 18);
    assert("input_envelope"@.len() == 14);
    assert("model"@[0] == 'm' && "tools"@[0] == 't' && "store"@[0] == 's');
    assert("instructions"@[0] == 'i' && "service_tier"@[0] == 's');
    let none = Seq::<MemberTree>::empty();
    let model = none + json::members_of("model"@, Some(JsonTree::Text(request.model@)));
    let instructions = model + json::members_of("instructions"@, stable_tree(request.instructions));
    let tools = instructions + json::members_of("tools"@, held_tree(request.tools));
    let store = tools + json::members_of("store"@, Some(JsonTree::Bool(request.store)));
    let stream = store + json::members_of("stream"@, Some(JsonTree::Bool(request.stream)));
    let names = stream + json::members_of("include"@, names_tree(request.included));
    let metadata = names + json::members_of(
        "client_metadata"@,
        held_tree(request.client_metadata),
    );
    let tier = text_tree(text::optional_text(request.service_tier));
    let tiered = metadata + json::members_of("service_tier"@, tier);
    let reasoned = tiered + json::members_of("reasoning"@, held_tree(request.reasoning));
    let demands = demands_tree(request.context_management);
    let managed = reasoned + json::members_of("context_management"@, demands);
    let items = Some(JsonTree::Array(request::item_trees(envelope)));
    json::lemma_lookup_added(none, "model"@, Some(JsonTree::Text(request.model@)), key);
    json::lemma_lookup_added(model, "instructions"@, stable_tree(request.instructions), key);
    json::lemma_lookup_added(instructions, "tools"@, held_tree(request.tools), key);
    json::lemma_lookup_added(tools, "store"@, Some(JsonTree::Bool(request.store)), key);
    json::lemma_lookup_added(store, "stream"@, Some(JsonTree::Bool(request.stream)), key);
    json::lemma_lookup_added(stream, "include"@, names_tree(request.included), key);
    json::lemma_lookup_added(names, "client_metadata"@, held_tree(request.client_metadata), key);
    json::lemma_lookup_added(metadata, "service_tier"@, tier, key);
    json::lemma_lookup_added(tiered, "reasoning"@, held_tree(request.reasoning), key);
    json::lemma_lookup_added(reasoned, "context_management"@, demands, key);
    json::lemma_lookup_added(managed, "input_envelope"@, items, key);
}

/// The canonical form of an optional value.
pub open spec fn canonical_option(value: Option<JsonTree>) -> Option<JsonTree> {
    match value {
        Some(value) => Some(canonical::canonical(value)),
        None => None,
    }
}

/// Whether two requests mean the same apart from their conversations: they have the same model and
/// the same instructions but for the git status, and all else by which they are recognised is alike.
pub open spec fn mean_the_same(
    a: ResponsesRequest,
    x: Seq<ResponsesInputItem>,
    b: ResponsesRequest,
    y: Seq<ResponsesInputItem>,
) -> bool {
    &&& a.model@ == b.model@
    &&& stable_tree(a.instructions) == stable_tree(b.instructions)
    &&& spelling::alike_options(
        canonical_option(held_tree(a.tools)),
        canonical_option(held_tree(b.tools)),
    )
    &&& a.store == b.store
    &&& a.stream == b.stream
    &&& text::optional_text(a.service_tier) == text::optional_text(b.service_tier)
    &&& forall|key: Seq<char>|
        spelling::alike_options(
            canonical_option(#[trigger] meaning(a, x, key)),
            canonical_option(meaning(b, y, key)),
        )
}

/// Requests that differ in their model, their tools, their instructions apart from the git status,
/// or anything else by which a request is recognised have different inputs of the digest that is
/// their fingerprint, where their numbers are numbers as JSON writes them.
pub proof fn law_fingerprint_tells_requests_apart(
    a: ResponsesRequest,
    x: Seq<ResponsesInputItem>,
    b: ResponsesRequest,
    y: Seq<ResponsesInputItem>,
)
    requires
        encoding::has_json_numbers(JsonTree::Object(fingerprint_members(a, x))),
        encoding::has_json_numbers(JsonTree::Object(fingerprint_members(b, y))),
        !mean_the_same(a, x, b, y),
    ensures
        fingerprint_input(a, x) != fingerprint_input(b, y),
{
    if fingerprint_input(a, x) == fingerprint_input(b, y) {
        let (m, n) = (fingerprint_members(a, x), fingerprint_members(b, y));
        let (p, q) = (
            canonical::canonical(JsonTree::Object(m)),
            canonical::canonical(JsonTree::Object(n)),
        );
        canonical::lemma_canonical_numbers(JsonTree::Object(m));
        canonical::lemma_canonical_numbers(JsonTree::Object(n));
        spelling::law_encoding_spells_one_value(p, q);
        assert forall|key: Seq<char>| spelling::alike_options(
            canonical_option(#[trigger] meaning(a, x, key)),
            canonical_option(meaning(b, y, key)),
        ) by {
            spelling::lemma_lookup_alike(p->Object_0, q->Object_0, key);
            canonical::lemma_get_canonical(m, key);
            canonical::lemma_get_canonical(n, key);
            lemma_meaning(a, x, key);
            lemma_meaning(b, y, key);
        }
        reveal_strlit("model");
        reveal_strlit("instructions");
        reveal_strlit("tools");
        reveal_strlit("store");
        reveal_strlit("stream");
        reveal_strlit("include");
        reveal_strlit("client_metadata");
        reveal_strlit("service_tier");
        reveal_strlit("reasoning");
        reveal_strlit("context_management");
        reveal_strlit("input_envelope");
        assert("model"@.len() == 5);
        assert("instructions"@.len() == 12);
        assert("tools"@.len() == 5);
        assert("store"@.len() == 5);
        assert("stream"@.len() == 6);
        assert("include"@.len() == 7);
        assert("client_metadata"@.len() == 15);
        assert("service_tier"@.len() == 12);
        assert("reasoning"@.len() == 9);
        assert("context_management"@.len() == 18);
        assert("input_envelope"@.len() == 14);
        assert("model"@[0] == 'm' && "tools"@[0] == 't' && "store"@[0] == 's');
        assert("instructions"@[0] == 'i' && "service_tier"@[0] == 's');
        assert(meaning(a, x, "model"@) == Some(JsonTree::Text(a.model@)));
        assert(meaning(b, y, "model"@) == Some(JsonTree::Text(b.model@)));
        assert(meaning(a, x, "instructions"@) == stable_tree(a.instructions));
        assert(meaning(b, y, "instructions"@) == stable_tree(b.instructions));
        assert(meaning(a, x, "tools"@) == held_tree(a.tools));
        assert(meaning(b, y, "tools"@) == held_tree(b.tools));
        assert(meaning(a, x, "store"@) == Some(JsonTree::Bool(a.store)));
        assert(meaning(b, y, "store"@) == Some(JsonTree::Bool(b.store)));
        assert(meaning(a, x, "stream"@) == Some(JsonTree::Bool(a.stream)));
        assert(meaning(b, y, "stream"@) == Some(JsonTree::Bool(b.stream)));
        assert(meaning(a, x, "service_tier"@) == text_tree(text::optional_text(a.service_tier)));
        assert(meaning(b, y, "service_tier"@) == text_tree(text::optional_text(b.service_tier)));
    }
}

/// Whether the lines `front`, `entries` and `rest`, one behind the other, hold one status header,
/// that of a git status: the last line of `front`, with `entries` for its lines.
pub open spec fn has_one_status(
    front: Seq<Seq<char>>,
    entries: Seq<Seq<char>>,
    rest: Seq<Seq<char>>,
) -> bool {
    &&& front.len() > 0
    &&& is_git_status(front, front.len() - 1)
    &&& forall|i: int| 0 <= i < front.len() - 1 ==> !is_status_header(#[trigger] front[i])
    &&& no_blank_line(entries)
    &&& ends_status(rest)
}

/// A fixed line stands in place of the lines of the one git status, and all others are kept.
proof fn lemma_one_status(
    front: Seq<Seq<char>>,
    entries: Seq<Seq<char>>,
    rest: Seq<Seq<char>>,
    index: int,
)
    requires
        has_one_status(front, entries, rest),
        0 <= index < front.len(),
    ensures
        stable_lines(front + entries + rest, index) == front.skip(index)
            + seq!["<runtime-git-status>"@] + rest,
    decreases front.len() - index,
{
    let lines = front + entries + rest;
    assert(lines[index] == front[index]);
    if index < front.len() - 1 {
        assert(!is_status_header(front[index]));
        lemma_one_status(front, entries, rest, index + 1);
        assert(stable_lines(lines, index) =~= front.skip(index) + seq!["<runtime-git-status>"@]
            + rest);
    } else {
        assert(git_nearby(lines, index)) by {
            let j = choose|j: int|
                0 <= j && index - 8 <= j < index && mentions_git(#[trigger] front[j]);
            assert(mentions_git(lines[j]));
        }
        let end = (front.len() + entries.len()) as int;
        assert forall|j: int| index + 1 <= j < end implies parts::trimmed(
            #[trigger] lines[j],
        ).len() > 0 by {
            assert(lines[j] == entries[j - front.len()]);
        }
        if rest.len() > 0 {
            assert(lines[end] == rest[0]);
        }
        lemma_block_end_at(lines, index + 1, end);
        lemma_behind_status(front, entries, rest);
        assert(stable_lines(lines, index) =~= front.skip(index) + seq!["<runtime-git-status>"@]
            + rest);
    }
}

/// The fixed line announces no status and is one line.
proof fn lemma_fixed_line()
    ensures
        !is_status_header("<runtime-git-status>"@),
        !"<runtime-git-status>"@.contains('\n'),
{
    reveal_strlit("<runtime-git-status>");
    reveal_strlit("status:");
    let line = "<runtime-git-status>"@;
    assert(line.len() == 20 && line[0] == '<' && line[19] == '>');
    assert(parts::trimmed(line) == line);
    assert(parts::lower_case(line).len() == 20);
    assert("status:"@.len() == 7);
    assert forall|i: int| 0 <= i < line.len() implies line[i] != '\n' by {}
}

/// In instructions with one git status every other line counts: where one of them differs, in front
/// of the status or behind it, the instructions by which requests are recognised differ.
pub proof fn law_other_lines_count(
    x: Seq<char>,
    front_x: Seq<Seq<char>>,
    entries_x: Seq<Seq<char>>,
    rest_x: Seq<Seq<char>>,
    y: Seq<char>,
    front_y: Seq<Seq<char>>,
    entries_y: Seq<Seq<char>>,
    rest_y: Seq<Seq<char>>,
)
    requires
        parts::split(x, '\n') == front_x + entries_x + rest_x,
        parts::split(y, '\n') == front_y + entries_y + rest_y,
        has_one_status(front_x, entries_x, rest_x),
        has_one_status(front_y, entries_y, rest_y),
        front_x != front_y || rest_x != rest_y,
    ensures
        stable(x) != stable(y),
{
    if stable(x) == stable(y) {
        let fixed = seq!["<runtime-git-status>"@];
        let (p, q) = (front_x + fixed + rest_x, front_y + fixed + rest_y);
        lemma_fixed_line();
        lemma_one_status(front_x, entries_x, rest_x, 0);
        lemma_one_status(front_y, entries_y, rest_y, 0);
        assert(front_x.skip(0) =~= front_x && front_y.skip(0) =~= front_y);
        lemma_lines_are_free(x, front_x, entries_x, rest_x);
        lemma_lines_are_free(y, front_y, entries_y, rest_y);
        parts::lemma_joined_split(p, '\n');
        parts::lemma_joined_split(q, '\n');
        assert(p == q);
        let (m, n) = (front_x.len() - 1, front_y.len() - 1);
        assert(p[m] == front_x[m] && q[n] == front_y[n]);
        assert(m == n) by {
            if m < n {
                assert(q[m] == front_y[m]);
                assert(!is_status_header(front_y[m]));
            }
            if n < m {
                assert(p[n] == front_x[n]);
                assert(!is_status_header(front_x[n]));
            }
        }
        assert(front_x =~= p.take(m + 1));
        assert(front_y =~= q.take(n + 1));
        assert(rest_x =~= p.skip(m + 2));
        assert(rest_y =~= q.skip(n + 2));
    }
}

/// The lines of instructions, with the fixed line in place of a status, are lines.
proof fn lemma_lines_are_free(
    text: Seq<char>,
    front: Seq<Seq<char>>,
    entries: Seq<Seq<char>>,
    rest: Seq<Seq<char>>,
)
    requires
        parts::split(text, '\n') == front + entries + rest,
    ensures
        parts::are_free_of(front + seq!["<runtime-git-status>"@] + rest, '\n'),
{
    let lines = front + entries + rest;
    let kept = front + seq!["<runtime-git-status>"@] + rest;
    lemma_fixed_line();
    parts::lemma_split_free(text, '\n');
    assert forall|i: int| 0 <= i < kept.len() implies !(#[trigger] kept[i]).contains('\n') by {
        if i < front.len() {
            assert(kept[i] == lines[i]);
        } else if i > front.len() {
            assert(kept[i] == lines[i - 1 + entries.len()]);
        }
    }
}

/// The keys under which a request is recognised differ from each other.
proof fn lemma_keys_differ()
    ensures
        "model"@.len() == 5,
        "instructions"@.len() == 12,
        "tools"@.len() == 5,
        "store"@.len() == 5,
        "stream"@.len() == 6,
        "include"@.len() == 7,
        "client_metadata"@.len() == 15,
        "service_tier"@.len() == 12,
        "reasoning"@.len() == 9,
        "context_management"@.len() == 18,
        "input_envelope"@.len() == 14,
        "model"@[0] == 'm',
        "tools"@[0] == 't',
        "store"@[0] == 's',
        "instructions"@[0] == 'i',
        "service_tier"@[0] == 's',
{
    reveal_strlit("model");
    reveal_strlit("instructions");
    reveal_strlit("tools");
    reveal_strlit("store");
    reveal_strlit("stream");
    reveal_strlit("include");
    reveal_strlit("client_metadata");
    reveal_strlit("service_tier");
    reveal_strlit("reasoning");
    reveal_strlit("context_management");
    reveal_strlit("input_envelope");
}

/// The fingerprint of a request is taken of its model, its instructions, its tools, its two flags,
/// what it is to hold besides, its metadata, its tier, its reasoning, its demands and its envelope,
/// each under its own key, and of nothing else: neither of the conversation nor of the cache key.
pub proof fn law_fingerprint_covers_the_request(
    request: ResponsesRequest,
    envelope: Seq<ResponsesInputItem>,
    members: Seq<MemberTree>,
    other: Seq<char>,
)
    requires
        members == fingerprint_members(request, envelope),
        other != "model"@ && other != "instructions"@ && other != "tools"@ && other != "store"@,
        other != "stream"@ && other != "include"@ && other != "client_metadata"@,
        other != "service_tier"@ && other != "reasoning"@ && other != "context_management"@,
        other != "input_envelope"@,
    ensures
        request_digest(request, envelope) == digest::text_fingerprint(
            encoding::encoded(canonical::canonical(JsonTree::Object(members))),
        ),
        json::lookup(members, "model"@) == Some(JsonTree::Text(request.model@)),
        request.instructions is None ==> json::lookup(members, "instructions"@) is None,
        request.instructions matches Some(text) ==> json::lookup(members, "instructions"@) == Some(
            JsonTree::Text(stable(text@)),
        ),
        request.tools is None ==> json::lookup(members, "tools"@) is None,
        request.tools matches Some(tools) ==> json::lookup(members, "tools"@) == Some(tools@),
        json::lookup(members, "store"@) == Some(JsonTree::Bool(request.store)),
        json::lookup(members, "stream"@) == Some(JsonTree::Bool(request.stream)),
        request.included is None ==> json::lookup(members, "include"@) is None,
        request.included matches Some(names) ==> json::lookup(members, "include"@) == Some(
            JsonTree::Array(Seq::new(names@.len(), |i: int| JsonTree::Text(names@[i]@))),
        ),
        request.client_metadata is None ==> json::lookup(members, "client_metadata"@) is None,
        request.client_metadata matches Some(data) ==> json::lookup(members, "client_metadata"@)
            == Some(data@),
        request.service_tier is None ==> json::lookup(members, "service_tier"@) is None,
        request.service_tier matches Some(tier) ==> json::lookup(members, "service_tier"@) == Some(
            JsonTree::Text(tier@),
        ),
        request.reasoning is None ==> json::lookup(members, "reasoning"@) is None,
        request.reasoning matches Some(reasoning) ==> json::lookup(members, "reasoning"@) == Some(
            reasoning@,
        ),
        request.context_management is None ==> json::lookup(members, "context_management"@) is None,
        request.context_management matches Some(demands) ==> json::lookup(
            members,
            "context_management"@,
        ) == Some(JsonTree::Array(Seq::new(demands@.len(), |i: int| demands@[i].tree()))),
        json::lookup(members, "input_envelope"@) == Some(
            JsonTree::Array(Seq::new(envelope.len(), |i: int| envelope[i].tree())),
        ),
        json::lookup(members, other) is None,
{
    lemma_keys_differ();
    lemma_meaning(request, envelope, "model"@);
    lemma_meaning(request, envelope, "instructions"@);
    lemma_meaning(request, envelope, "tools"@);
    lemma_meaning(request, envelope, "store"@);
    lemma_meaning(request, envelope, "stream"@);
    lemma_meaning(request, envelope, "include"@);
    lemma_meaning(request, envelope, "client_metadata"@);
    lemma_meaning(request, envelope, "service_tier"@);
    lemma_meaning(request, envelope, "reasoning"@);
    lemma_meaning(request, envelope, "context_management"@);
    lemma_meaning(request, envelope, "input_envelope"@);
    lemma_meaning(request, envelope, other);
    if let Some(names) = request.included {
        assert(json::text_trees(names@) =~= Seq::new(
            names@.len(),
            |i: int| JsonTree::Text(names@[i]@),
        ));
    }
    if let Some(demands) = request.context_management {
        assert(request::management_trees(demands@) =~= Seq::new(
            demands@.len(),
            |i: int| demands@[i].tree(),
        ));
    }
    assert(request::item_trees(envelope) =~= Seq::new(
        envelope.len(),
        |i: int| envelope[i].tree(),
    ));
}

/// Whether the letters of the word git stand in `line` at position `at`, in either case.
pub open spec fn spells_git(line: Seq<char>, at: int) -> bool {
    &&& 0 <= at
    &&& at + 3 <= line.len()
    &&& line[at] == 'g' || line[at] == 'G'
    &&& line[at + 1] == 'i' || line[at + 1] == 'I'
    &&& line[at + 2] == 't' || line[at + 2] == 'T'
}

/// A line speaks of git exactly where the letters of the word stand in it.
proof fn lemma_spells_git(line: Seq<char>, at: int)
    ensures
        spells_git(line, at) <==> parts::stands_at(parts::lower_case(line), "git"@, at),
{
    reveal_strlit("git");
    let (lower, git) = (parts::lower_case(line), "git"@);
    assert(git.len() == 3 && git[0] == 'g' && git[1] == 'i' && git[2] == 't');
    if 0 <= at && at + 3 <= line.len() {
        let part = lower.subrange(at, at + 3);
        assert(part[0] == lower[at] && part[1] == lower[at + 1] && part[2] == lower[at + 2]);
        if spells_git(line, at) {
            assert(part =~= git);
        }
    }
}

/// A line announces the git status exactly where it says "status:", in letters of either case and
/// with white space around it or not, and the word git stands in one of the eight lines in front.
pub proof fn law_git_status_is_announced(lines: Seq<Seq<char>>, index: int)
    requires
        0 <= index < lines.len(),
    ensures
        is_git_status(lines, index) <==> {
            &&& parts::lower_case(parts::trimmed(lines[index])) == "status:"@
            &&& exists|j: int, at: int|
                0 <= j && index - 8 <= j < index && #[trigger] spells_git(lines[j], at)
        },
{
    if git_nearby(lines, index) {
        let j = choose|j: int| 0 <= j && index - 8 <= j < index && mentions_git(#[trigger] lines[j]);
        let at = choose|at: int| parts::stands_at(parts::lower_case(lines[j]), "git"@, at);
        lemma_spells_git(lines[j], at);
    }
    if exists|j: int, at: int|
        0 <= j && index - 8 <= j < index && #[trigger] spells_git(lines[j], at) {
        let (j, at) = choose|j: int, at: int|
            0 <= j && index - 8 <= j < index && #[trigger] spells_git(lines[j], at);
        lemma_spells_git(lines[j], at);
        assert(mentions_git(lines[j]));
    }
}

/// In front of the first git status nothing changes; the line that announces it is kept, a fixed
/// line stands in place of the lines up to the next blank one, and what is behind goes on likewise.
pub proof fn law_each_git_status_is_replaced(
    lines: Seq<Seq<char>>,
    index: int,
    header: int,
    end: int,
)
    requires
        0 <= index <= header < end <= lines.len(),
        forall|i: int| index <= i < header ==> !is_git_status(lines, i),
        is_git_status(lines, header),
        forall|i: int| header < i < end ==> parts::trimmed(#[trigger] lines[i]).len() > 0,
        end < lines.len() ==> parts::trimmed(lines[end]).len() == 0,
    ensures
        stable_lines(lines, index) == lines.subrange(index, header + 1) + seq![
            "<runtime-git-status>"@,
        ] + stable_lines(lines, end),
    decreases header - index,
{
    if index < header {
        assert(!is_git_status(lines, index));
        law_each_git_status_is_replaced(lines, index + 1, header, end);
    } else {
        lemma_block_end_at(lines, header + 1, end);
    }
    assert(stable_lines(lines, index) =~= lines.subrange(index, header + 1) + seq![
        "<runtime-git-status>"@,
    ] + stable_lines(lines, end));
}

}
