//! By what an item of a transcript is recognised without being kept: its type, and a digest of what
//! makes it the same item.

use vstd::prelude::*;
use vstd::string::*;

use crate::canonical::canonical_json;
use crate::canonical;
use crate::digest::hash_json;
use crate::digest;
use crate::encoding;
use crate::json::{push_member, push_text, Json, JsonTree, Member, MemberTree};
use crate::json;
use crate::parsing::parse_json;
use crate::parsing;
use crate::spelling;
use crate::text::same_text;
use crate::text;
use crate::transcript::{canonical_function_call_arguments, item_type};
use crate::transcript;

verus! {

/// By what an item is recognised: its type where it has one, and a digest of what makes it the same
/// item. There is no digest for a function call without textual arguments, which nothing echoes.
#[derive(Debug)]
pub struct Recognition {
    pub kind: Option<String>,
    pub sha256: Option<String>,
}

/// What a recognition holds.
pub struct RecognitionView {
    pub kind: Option<Seq<char>>,
    pub sha256: Option<Seq<char>>,
}

impl View for Recognition {
    type V = RecognitionView;

    open spec fn view(&self) -> RecognitionView {
        RecognitionView {
            kind: text::optional_text(self.kind),
            sha256: text::optional_text(self.sha256),
        }
    }
}

impl Clone for Recognition {
    fn clone(&self) -> (copy: Self)
        ensures
            copy@ == self@,
    {
        Recognition {
            kind: match &self.kind {
                Some(kind) => Some(kind.clone()),
                None => None,
            },
            sha256: match &self.sha256 {
                Some(sha256) => Some(sha256.clone()),
                None => None,
            },
        }
    }
}

/// What each recognition of a sequence holds.
pub open spec fn views(recognitions: Seq<Recognition>) -> Seq<RecognitionView> {
    Seq::new(recognitions.len(), |i: int| recognitions[i]@)
}

/// One more recognition holds one more view.
pub broadcast proof fn lemma_views_push(recognitions: Seq<Recognition>, recognition: Recognition)
    ensures
        #[trigger] views(recognitions.push(recognition)) == views(recognitions).push(recognition@),
{
    assert(views(recognitions.push(recognition)) =~= views(recognitions).push(recognition@));
}

/// A number, the two floating-point zeros as one.
pub open spec fn one_zero(number: Seq<char>) -> Seq<char> {
    if canonical::is_zero(number) {
        "0.0"@
    } else {
        number
    }
}

/// The value with the two floating-point zeros made one.
pub open spec fn unified(value: JsonTree) -> JsonTree
    decreases value,
{
    match value {
        JsonTree::Number(text, unsigned) => JsonTree::Number(one_zero(text), unsigned),
        JsonTree::Array(items) => JsonTree::Array(
            Seq::new(
                items.len(),
                |i: int|
                    if 0 <= i < items.len() {
                        unified(items[i])
                    } else {
                        JsonTree::Null
                    },
            ),
        ),
        JsonTree::Object(members) => JsonTree::Object(
            Seq::new(
                members.len(),
                |i: int|
                    if 0 <= i < members.len() {
                        MemberTree { key: members[i].key, value: unified(members[i].value) }
                    } else {
                        MemberTree { key: Seq::empty(), value: JsonTree::Null }
                    },
            ),
        ),
        other => other,
    }
}

/// The canonical form of an optional value, with the two floating-point zeros made one.
pub open spec fn settled(value: Option<JsonTree>) -> Option<JsonTree> {
    match value {
        Some(value) => Some(unified(canonical::canonical(value))),
        None => None,
    }
}

/// The arguments of a call of the tool `tool` by which it is recognised: their value with the
/// defaults of the tool where they are JSON, and their text where they are not.
pub open spec fn identifying_arguments(tool: Seq<char>, arguments: Seq<char>) -> MemberTree {
    match parsing::parsed(arguments) {
        Some(value) => json::member(
            "arguments"@,
            unified(transcript::arguments_form(tool, value)),
        ),
        None => json::member("text"@, JsonTree::Text(arguments)),
    }
}

/// What makes an item the same item: of reasoning its identifier and its encrypted content, of a
/// function call its identifier, its tool and its arguments, of anything else its value.
pub open spec fn identifying(item: JsonTree) -> Option<JsonTree> {
    if transcript::is_kind(item, "reasoning"@) {
        Some(
            JsonTree::Object(
                json::members_of("id"@, settled(item.get("id"@))) + json::members_of(
                    "encrypted_content"@,
                    settled(item.get("encrypted_content"@)),
                ),
            ),
        )
    } else if transcript::is_kind(item, "function_call"@) {
        match item.text_at("arguments"@) {
            Some(arguments) => Some(
                JsonTree::Object(
                    (json::members_of("call_id"@, settled(item.get("call_id"@)))
                        + json::members_of("name"@, settled(item.get("name"@)))).push(
                        identifying_arguments(transcript::tool_of(item), arguments),
                    ),
                ),
            ),
            None => None,
        }
    } else {
        settled(Some(item))
    }
}

/// By what an item is recognised.
pub open spec fn recognition(item: JsonTree) -> RecognitionView {
    RecognitionView {
        kind: transcript::item_kind(item),
        sha256: match identifying(item) {
            Some(value) => Some(digest::text_fingerprint(encoding::encoded(value))),
            None => None,
        },
    }
}

/// By what each item of a sequence is recognised.
pub open spec fn recognitions(items: Seq<JsonTree>) -> Seq<RecognitionView> {
    Seq::new(items.len(), |i: int| recognition(items[i]))
}

/// Whether an item is the one that was expected.
pub open spec fn recognises(expected: RecognitionView, actual: JsonTree) -> bool {
    expected.sha256 is Some && expected == recognition(actual)
}

/// The value with the two floating-point zeros made one.
fn unify_zeros(value: &Json) -> (result: Json)
    ensures
        result@ == unified(value@),
    decreases value,
{
    broadcast use {json::lemma_array_view, json::lemma_object_view};

    match value {
        Json::Number { text, unsigned } => {
            if same_text(text.as_str(), "0.0") || same_text(text.as_str(), "-0.0") {
                Json::Number { text: "0.0".to_owned(), unsigned: *unsigned }
            } else {
                Json::Number { text: text.clone(), unsigned: *unsigned }
            }
        },
        Json::Array(items) => {
            let mut results: Vec<Json> = Vec::new();
            let mut i: usize = 0;
            let ghost wanted = unified(value@)->Array_0;
            #[verifier::loop_isolation(false)]
            while i < items.len()
                invariant
                    i <= items@.len(),
                    json::trees(results@) == wanted.take(i as int),
                decreases items@.len() - i,
            {
                results.push(unify_zeros(&items[i]));
                i = i + 1;
                assert(json::trees(results@) =~= wanted.take(i as int));
            }
            assert(json::trees(results@) =~= wanted);
            Json::Array(results)
        },
        Json::Object(members) => {
            let mut results: Vec<Member> = Vec::new();
            let mut i: usize = 0;
            let ghost wanted = unified(value@)->Object_0;
            #[verifier::loop_isolation(false)]
            while i < members.len()
                invariant
                    i <= members@.len(),
                    json::member_trees(results@) == wanted.take(i as int),
                decreases members@.len() - i,
            {
                results.push(
                    Member { key: members[i].key.clone(), value: unify_zeros(&members[i].value) },
                );
                i = i + 1;
                assert(json::member_trees(results@) =~= wanted.take(i as int));
            }
            assert(json::member_trees(results@) =~= wanted);
            Json::Object(results)
        },
        other => other.clone(),
    }
}

/// Appends the member `key` in its settled form where there is a value.
fn push_settled(members: &mut Vec<Member>, key: &str, value: Option<&Json>)
    ensures
        json::member_trees(final(members)@) == json::member_trees(old(members)@)
            + json::members_of(key@, settled(json::optional_tree(value))),
{
    let ghost held = settled(json::optional_tree(value));
    if let Some(value) = value {
        push_member(members, key, unify_zeros(&canonical_json(value)));
    }
    assert(json::member_trees(members@) =~= json::member_trees(old(members)@) + json::members_of(
        key@,
        held,
    ));
}

/// What makes an item the same item.
fn identifying_value(item: &Json) -> (value: Option<Json>)
    ensures
        match value {
            Some(value) => identifying(item@) == Some(value@),
            None => identifying(item@) is None,
        },
{
    broadcast use json::lemma_object_view;

    let mut members: Vec<Member> = Vec::new();
    assert(json::member_trees(members@) =~= Seq::empty());
    if item.text_at_is("type", "reasoning") {
        push_settled(&mut members, "id", item.get("id"));
        push_settled(&mut members, "encrypted_content", item.get("encrypted_content"));
        assert(json::member_trees(members@) =~= identifying(item@)->0->Object_0);
        Some(Json::Object(members))
    } else if item.text_at_is("type", "function_call") {
        let arguments = match item.text_at("arguments") {
            Some(arguments) => arguments,
            None => {
                return None;
            },
        };
        let tool = match item.text_at("name") {
            Some(name) => name.to_owned(),
            None => String::new(),
        };
        assert(tool@ =~= transcript::tool_of(item@));
        push_settled(&mut members, "call_id", item.get("call_id"));
        push_settled(&mut members, "name", item.get("name"));
        match parse_json(arguments) {
            Some(value) => {
                let form = canonical_function_call_arguments(tool.as_str(), value);
                push_member(&mut members, "arguments", unify_zeros(&form));
            },
            None => {
                push_text(&mut members, "text", arguments);
            },
        }
        assert(json::member_trees(members@) =~= identifying(item@)->0->Object_0);
        Some(Json::Object(members))
    } else {
        Some(unify_zeros(&canonical_json(item)))
    }
}

/// By what an item is recognised.
pub fn recognise(item: &Json) -> (result: Recognition)
    ensures
        result@ == recognition(item@),
{
    Recognition {
        kind: match item_type(item) {
            Some(kind) => Some(kind.to_owned()),
            None => None,
        },
        sha256: match identifying_value(item) {
            Some(value) => Some(hash_json(&value)),
            None => None,
        },
    }
}

/// Whether two optional texts are both absent, or both there and the same.
fn same_optional_text(a: &Option<String>, b: &Option<String>) -> (result: bool)
    ensures
        result == (text::optional_text(*a) == text::optional_text(*b)),
{
    match (a, b) {
        (Some(x), Some(y)) => same_text(x.as_str(), y.as_str()),
        (None, None) => true,
        _ => false,
    }
}

/// Whether the item of a transcript is the one that was expected there.
pub fn replay_item_matches(expected: &Recognition, actual: &Json) -> (result: bool)
    ensures
        result == recognises(expected@, actual@),
{
    let found = recognise(actual);
    expected.sha256.is_some() && same_optional_text(&expected.kind, &found.kind)
        && same_optional_text(&expected.sha256, &found.sha256)
}

/// Values that are the same are written alike once the zeros are made one.
proof fn lemma_same_unified(a: JsonTree, b: JsonTree)
    requires
        canonical::same(a, b),
    ensures
        encoding::encoded(unified(a)) == encoding::encoded(unified(b)),
    decreases a,
{
    match (a, b) {
        (JsonTree::Array(x), JsonTree::Array(y)) => {
            let (p, q) = (unified(a)->Array_0, unified(b)->Array_0);
            encoding::lemma_all_encoded(p);
            encoding::lemma_all_encoded(q);
            assert forall|i: int| 0 <= i < p.len() implies #[trigger] encoding::all_encoded(p)[i]
                == encoding::all_encoded(q)[i] by {
                assert(canonical::same(x[i], y[i]));
                lemma_same_unified(x[i], y[i]);
            }
            assert(encoding::all_encoded(p) =~= encoding::all_encoded(q));
        },
        (JsonTree::Object(x), JsonTree::Object(y)) => {
            let (p, q) = (unified(a)->Object_0, unified(b)->Object_0);
            encoding::lemma_all_encoded_members(p);
            encoding::lemma_all_encoded_members(q);
            assert forall|i: int|
                0 <= i < p.len() implies #[trigger] encoding::all_encoded_members(p)[i]
                == encoding::all_encoded_members(q)[i] by {
                assert(x[i].key == y[i].key && canonical::same(x[i].value, y[i].value));
                assert(decreases_to!(a => a->Object_0));
                assert(decreases_to!(x => x[i]));
                assert(decreases_to!(x[i] => x[i].value));
                lemma_same_unified(x[i].value, y[i].value);
            }
            assert(encoding::all_encoded_members(p) =~= encoding::all_encoded_members(q));
        },
        _ => {},
    }
}

/// Values that are written alike once the zeros are made one are the same.
proof fn lemma_unified_same(a: JsonTree, b: JsonTree)
    requires
        spelling::alike(unified(a), unified(b)),
    ensures
        canonical::same(a, b),
    decreases a,
{
    match (a, b) {
        (JsonTree::Array(x), JsonTree::Array(y)) => {
            let (p, q) = (unified(a)->Array_0, unified(b)->Array_0);
            assert forall|i: int| 0 <= i < x.len() implies canonical::same(
                #[trigger] x[i],
                y[i],
            ) by {
                assert(spelling::alike(p[i], q[i]));
                lemma_unified_same(x[i], y[i]);
            }
        },
        (JsonTree::Object(x), JsonTree::Object(y)) => {
            let (p, q) = (unified(a)->Object_0, unified(b)->Object_0);
            assert forall|i: int| 0 <= i < x.len() implies (#[trigger] x[i]).key == y[i].key
                && canonical::same(x[i].value, y[i].value) by {
                assert(p[i].key == q[i].key && spelling::alike(p[i].value, q[i].value));
                assert(decreases_to!(a => a->Object_0));
                assert(decreases_to!(x => x[i]));
                assert(decreases_to!(x[i] => x[i].value));
                lemma_unified_same(x[i].value, y[i].value);
            }
        },
        _ => {},
    }
}

/// Optional values that are equal are written alike once they are settled.
proof fn lemma_settled_members(key: Seq<char>, a: Option<JsonTree>, b: Option<JsonTree>)
    requires
        canonical::equal_options(a, b),
    ensures
        encoding::all_encoded_members(json::members_of(key, settled(a)))
            == encoding::all_encoded_members(json::members_of(key, settled(b))),
{
    let (p, q) = (json::members_of(key, settled(a)), json::members_of(key, settled(b)));
    encoding::lemma_all_encoded_members(p);
    encoding::lemma_all_encoded_members(q);
    if a is Some {
        lemma_same_unified(canonical::canonical(a->0), canonical::canonical(b->0));
    }
    assert(encoding::all_encoded_members(p) =~= encoding::all_encoded_members(q));
}

/// The encodings of two sequences of members, one behind the other.
proof fn lemma_encoded_joined(a: Seq<MemberTree>, b: Seq<MemberTree>)
    ensures
        encoding::all_encoded_members(a + b) == encoding::all_encoded_members(a)
            + encoding::all_encoded_members(b),
{
    encoding::lemma_all_encoded_members(a);
    encoding::lemma_all_encoded_members(b);
    encoding::lemma_all_encoded_members(a + b);
    assert(encoding::all_encoded_members(a + b) =~= encoding::all_encoded_members(a)
        + encoding::all_encoded_members(b));
}

/// The name of a tool is the same where the members that name it are equal.
proof fn lemma_same_tool(a: JsonTree, b: JsonTree)
    requires
        canonical::equal_options(a.get("name"@), b.get("name"@)),
    ensures
        transcript::tool_of(a) == transcript::tool_of(b),
{
    if let (Some(x), Some(y)) = (a.get("name"@), b.get("name"@)) {
        assert(canonical::same(canonical::canonical(x), canonical::canonical(y)));
    }
}

/// An item that is the same item as another is recognised by what that one is recognised by.
pub proof fn law_same_items_are_recognised(expected: JsonTree, actual: JsonTree)
    requires
        transcript::items_match(expected, actual),
    ensures
        recognises(recognition(expected), actual),
{
    if transcript::is_kind(expected, "reasoning"@) {
        let (a, b) = (expected.get("id"@), actual.get("id"@));
        let (c, d) = (expected.get("encrypted_content"@), actual.get("encrypted_content"@));
        lemma_settled_members("id"@, a, b);
        lemma_settled_members("encrypted_content"@, c, d);
        lemma_encoded_joined(
            json::members_of("id"@, settled(a)),
            json::members_of("encrypted_content"@, settled(c)),
        );
        lemma_encoded_joined(
            json::members_of("id"@, settled(b)),
            json::members_of("encrypted_content"@, settled(d)),
        );
    } else if transcript::is_kind(expected, "function_call"@) {
        let (a, b) = (expected.get("call_id"@), actual.get("call_id"@));
        let (c, d) = (expected.get("name"@), actual.get("name"@));
        let tool = transcript::tool_of(expected);
        let (e, f) = (expected.text_at("arguments"@)->0, actual.text_at("arguments"@)->0);
        let (m, n) = (identifying_arguments(tool, e), identifying_arguments(tool, f));
        lemma_same_tool(expected, actual);
        lemma_settled_members("call_id"@, a, b);
        lemma_settled_members("name"@, c, d);
        lemma_encoded_joined(
            json::members_of("call_id"@, settled(a)),
            json::members_of("name"@, settled(c)),
        );
        lemma_encoded_joined(
            json::members_of("call_id"@, settled(b)),
            json::members_of("name"@, settled(d)),
        );
        if let (Some(x), Some(y)) = (parsing::parsed(e), parsing::parsed(f)) {
            lemma_same_unified(
                transcript::arguments_form(tool, x),
                transcript::arguments_form(tool, y),
            );
        }
        assert(encoding::encoded_member(m) == encoding::encoded_member(n));
        let (p, q) = (identifying(expected)->0->Object_0, identifying(actual)->0->Object_0);
        assert(p.drop_last() =~= json::members_of("call_id"@, settled(a)) + json::members_of(
            "name"@,
            settled(c),
        ));
        assert(q.drop_last() =~= json::members_of("call_id"@, settled(b)) + json::members_of(
            "name"@,
            settled(d),
        ));
        assert(encoding::all_encoded_members(p) =~= encoding::all_encoded_members(q));
    } else {
        lemma_same_unified(canonical::canonical(expected), canonical::canonical(actual));
    }
}

/// Optional values that are alike once they are settled are equal.
proof fn lemma_equal_settled(a: Option<JsonTree>, b: Option<JsonTree>)
    requires
        spelling::alike_options(settled(a), settled(b)),
    ensures
        canonical::equal_options(a, b),
{
    if a is Some {
        lemma_unified_same(canonical::canonical(a->0), canonical::canonical(b->0));
    }
}

/// Nothing but the same item has the same input of the digest by which an item is recognised, where
/// the numbers in both are numbers as JSON writes them.
pub proof fn law_recognised_items_are_the_same(expected: JsonTree, actual: JsonTree)
    requires
        transcript::item_kind(expected) == transcript::item_kind(actual),
        identifying(expected) is Some,
        identifying(actual) is Some,
        encoding::has_json_numbers(identifying(expected)->0),
        encoding::has_json_numbers(identifying(actual)->0),
        encoding::encoded(identifying(expected)->0) == encoding::encoded(identifying(actual)->0),
    ensures
        transcript::items_match(expected, actual),
{
    let (x, y) = (identifying(expected)->0, identifying(actual)->0);
    spelling::law_encoding_spells_one_value(x, y);
    if transcript::is_kind(expected, "reasoning"@) {
        reveal_strlit("id");
        reveal_strlit("encrypted_content");
        assert("id"@.len() == 2 && "encrypted_content"@.len() == 17);
        let (a, b) = (expected.get("id"@), actual.get("id"@));
        let (c, d) = (expected.get("encrypted_content"@), actual.get("encrypted_content"@));
        let none = Seq::<MemberTree>::empty();
        let (m, n) = (json::members_of("id"@, settled(a)), json::members_of("id"@, settled(b)));
        assert(none + m =~= m && none + n =~= n);
        json::lemma_lookup_added(none, "id"@, settled(a), "id"@);
        json::lemma_lookup_added(none, "id"@, settled(b), "id"@);
        json::lemma_lookup_added(none, "id"@, settled(a), "encrypted_content"@);
        json::lemma_lookup_added(none, "id"@, settled(b), "encrypted_content"@);
        json::lemma_lookup_added(m, "encrypted_content"@, settled(c), "id"@);
        json::lemma_lookup_added(n, "encrypted_content"@, settled(d), "id"@);
        json::lemma_lookup_added(m, "encrypted_content"@, settled(c), "encrypted_content"@);
        json::lemma_lookup_added(n, "encrypted_content"@, settled(d), "encrypted_content"@);
        spelling::lemma_lookup_alike(x->Object_0, y->Object_0, "id"@);
        spelling::lemma_lookup_alike(x->Object_0, y->Object_0, "encrypted_content"@);
        lemma_equal_settled(a, b);
        lemma_equal_settled(c, d);
    } else if transcript::is_kind(expected, "function_call"@) {
        let (e, f) = (expected.text_at("arguments"@)->0, actual.text_at("arguments"@)->0);
        let (s, t) = (transcript::tool_of(expected), transcript::tool_of(actual));
        lemma_call_members(expected);
        lemma_call_members(actual);
        spelling::lemma_lookup_alike(x->Object_0, y->Object_0, "call_id"@);
        spelling::lemma_lookup_alike(x->Object_0, y->Object_0, "name"@);
        spelling::lemma_lookup_alike(x->Object_0, y->Object_0, "arguments"@);
        spelling::lemma_lookup_alike(x->Object_0, y->Object_0, "text"@);
        lemma_equal_settled(expected.get("call_id"@), actual.get("call_id"@));
        lemma_equal_settled(expected.get("name"@), actual.get("name"@));
        lemma_same_tool(expected, actual);
        if let (Some(p), Some(q)) = (parsing::parsed(e), parsing::parsed(f)) {
            lemma_unified_same(
                transcript::arguments_form(s, p),
                transcript::arguments_form(t, q),
            );
        }
    } else {
        lemma_unified_same(canonical::canonical(expected), canonical::canonical(actual));
    }
}

/// What is found in that by which a function call is recognised.
proof fn lemma_call_members(item: JsonTree)
    requires
        transcript::is_kind(item, "function_call"@),
        identifying(item) is Some,
    ensures
        ({
            let members = identifying(item)->0->Object_0;
            let arguments = item.text_at("arguments"@)->0;
            let parsed = parsing::parsed(arguments);
            &&& json::lookup(members, "call_id"@) == settled(item.get("call_id"@))
            &&& json::lookup(members, "name"@) == settled(item.get("name"@))
            &&& json::lookup(members, "arguments"@) == match parsed {
                Some(value) => Some(
                    unified(transcript::arguments_form(transcript::tool_of(item), value)),
                ),
                None => None,
            }
            &&& json::lookup(members, "text"@) == match parsed {
                Some(_) => None,
                None => Some(JsonTree::Text(arguments)),
            }
        }),
{
    reveal_strlit("function_call");
    reveal_strlit("reasoning");
    reveal_strlit("call_id");
    reveal_strlit("name");
    reveal_strlit("arguments");
    reveal_strlit("text");
    assert("function_call"@.len() == 13 && "reasoning"@.len() == 9);
    assert("call_id"@.len() == 7 && "name"@.len() == 4 && "arguments"@.len() == 9);
    assert("text"@.len() == 4 && "text"@[0] == 't' && "name"@[0] == 'n');
    let none = Seq::<MemberTree>::empty();
    let (a, b) = (settled(item.get("call_id"@)), settled(item.get("name"@)));
    let last = identifying_arguments(
        transcript::tool_of(item),
        item.text_at("arguments"@)->0,
    );
    let first = json::members_of("call_id"@, a);
    let front = first + json::members_of("name"@, b);
    assert(none + first =~= first);
    assert(front.push(last) =~= front + json::members_of(last.key, Some(last.value)));
    assert forall|key: Seq<char>| #[trigger]
        json::lookup(front.push(last), key) == if key == last.key {
            Some(last.value)
        } else if key == "name"@ && b is Some {
            b
        } else if key == "call_id"@ && a is Some {
            a
        } else {
            None
        } by {
        json::lemma_lookup_added(none, "call_id"@, a, key);
        json::lemma_lookup_added(first, "name"@, b, key);
        json::lemma_lookup_added(front, last.key, Some(last.value), key);
    }
}

/// An item is recognised by its type and by the digest of what makes it the same item, and by
/// nothing less: both are to be those that were recorded.
pub proof fn law_items_are_recognised_by_type_and_digest(
    expected: RecognitionView,
    actual: JsonTree,
)
    ensures
        recognises(expected, actual) <==> {
            &&& expected.kind == actual.text_at("type"@)
            &&& identifying(actual) is Some
            &&& expected.sha256 == Some(
                digest::text_fingerprint(encoding::encoded(identifying(actual)->0)),
            )
        },
        recognition(actual).kind == actual.text_at("type"@),
        identifying(actual) is None <==> actual.text_at("type"@) == Some("function_call"@)
            && actual.text_at("arguments"@) is None,
{
    reveal_strlit("reasoning");
    reveal_strlit("function_call");
    assert("reasoning"@.len() == 9 && "function_call"@.len() == 13);
}

/// Of an item that is neither reasoning nor a function call, the whole value is hashed: a message
/// with another role, another part or another text has another input of the digest.
pub proof fn law_another_message_is_hashed_otherwise(expected: JsonTree, actual: JsonTree)
    requires
        expected.text_at("type"@) == actual.text_at("type"@),
        expected.text_at("type"@) != Some("reasoning"@),
        expected.text_at("type"@) != Some("function_call"@),
        encoding::has_json_numbers(identifying(expected)->0),
        encoding::has_json_numbers(identifying(actual)->0),
        !canonical::equal(expected, actual),
    ensures
        identifying(expected) is Some,
        identifying(actual) is Some,
        encoding::encoded(identifying(expected)->0) != encoding::encoded(identifying(actual)->0),
{
    if encoding::encoded(identifying(expected)->0) == encoding::encoded(identifying(actual)->0) {
        law_recognised_items_are_the_same(expected, actual);
    }
}

}
