//! The items of a transcript: what makes two of them the same, and the digest of a transcript.

use vstd::prelude::*;
use vstd::string::*;

use crate::canonical::{canonical_json, put_member};
use crate::canonical;
use crate::digest::hash_json;
use crate::digest;
use crate::encoding::encode_json;
use crate::encoding;
use crate::json::{Json, JsonTree, Member};
use crate::json;
use crate::parsing::parse_json;
use crate::parsing;
use crate::text::same_text;

verus! {

/// The type of an item.
pub open spec fn item_kind(item: JsonTree) -> Option<Seq<char>> {
    item.text_at("type"@)
}

/// Whether an item is of the type `kind`.
pub open spec fn is_kind(item: JsonTree, kind: Seq<char>) -> bool {
    item_kind(item) == Some(kind)
}

/// The type of an item.
pub fn item_type(item: &Json) -> (kind: Option<&str>)
    ensures
        kind matches Some(k) ==> item_kind(item@) == Some(k@),
        kind is None ==> item_kind(item@) is None,
{
    item.text_at("type")
}

/// The arguments of a call of the tool `tool`, with the default that the tool gives to an argument
/// that was left out: an edit replaces one occurrence.
pub open spec fn with_defaults(tool: Seq<char>, arguments: JsonTree) -> JsonTree {
    match arguments {
        JsonTree::Object(members) => {
            if tool == "Edit"@ && arguments.get("file_path"@) is Some && arguments.get(
                "old_string"@,
            ) is Some && arguments.get("new_string"@) is Some && arguments.get(
                "replace_all"@,
            ) is None {
                JsonTree::Object(
                    canonical::with_member(
                        members,
                        json::member("replace_all"@, JsonTree::Bool(false)),
                    ),
                )
            } else {
                arguments
            }
        },
        _ => arguments,
    }
}

/// The arguments of a call with the defaults of its tool, in canonical form.
pub open spec fn arguments_form(tool: Seq<char>, arguments: JsonTree) -> JsonTree {
    canonical::canonical(with_defaults(tool, arguments))
}

/// Whether two calls of the tool `tool` have the same arguments: as JSON values with the defaults
/// of the tool where both are JSON, and as texts where one is not.
pub open spec fn arguments_match(
    tool: Seq<char>,
    expected: Option<Seq<char>>,
    actual: Option<Seq<char>>,
) -> bool {
    match (expected, actual) {
        (Some(e), Some(a)) => match (parsing::parsed(e), parsing::parsed(a)) {
            (Some(x), Some(y)) => canonical::same(arguments_form(tool, x), arguments_form(tool, y)),
            _ => e == a,
        },
        _ => false,
    }
}

/// The arguments of a call with the defaults of its tool, in canonical form.
pub fn canonical_function_call_arguments(tool_name: &str, value: Json) -> (form: Json)
    ensures
        form@ == arguments_form(tool_name@, value@),
{
    broadcast use json::lemma_object_view;

    let ghost arguments = value@;
    let add_default = same_text(tool_name, "Edit") && value.get("file_path").is_some() && value.get(
        "old_string",
    ).is_some() && value.get("new_string").is_some() && value.get("replace_all").is_none();
    let completed = match value {
        Json::Object(members) => {
            let mut members = members;
            if add_default {
                let default = Member { key: "replace_all".to_owned(), value: Json::Bool(false) };
                put_member(&mut members, default);
            }
            Json::Object(members)
        },
        other => other,
    };
    assert(completed@ == with_defaults(tool_name@, arguments));
    canonical_json(&completed)
}

/// Whether two calls of one tool have the same arguments.
pub fn function_call_arguments_match(
    tool_name: &str,
    expected: Option<&str>,
    actual: Option<&str>,
) -> (result: bool)
    ensures
        result == arguments_match(
            tool_name@,
            match expected {
                Some(text) => Some(text@),
                None => None,
            },
            match actual {
                Some(text) => Some(text@),
                None => None,
            },
        ),
{
    match (expected, actual) {
        (Some(expected), Some(actual)) => match (parse_json(expected), parse_json(actual)) {
            (Some(x), Some(y)) => {
                let x = canonical_function_call_arguments(tool_name, x);
                let y = canonical_function_call_arguments(tool_name, y);
                canonical::same_json(&x, &y)
            },
            _ => same_text(expected, actual),
        },
        _ => false,
    }
}

/// Whether the item of a transcript is the one that was expected there. Reasoning is recognised by
/// its identifier and its encrypted content, a function call by its identifier, its tool and its
/// arguments; anything else is to be equal.
pub open spec fn items_match(expected: JsonTree, actual: JsonTree) -> bool {
    if item_kind(expected) != item_kind(actual) {
        false
    } else if is_kind(expected, "reasoning"@) {
        canonical::equal_options(expected.get("id"@), actual.get("id"@))
            && canonical::equal_options(
            expected.get("encrypted_content"@),
            actual.get("encrypted_content"@),
        )
    } else if is_kind(expected, "function_call"@) {
        canonical::equal_options(expected.get("call_id"@), actual.get("call_id"@))
            && canonical::equal_options(expected.get("name"@), actual.get("name"@))
            && arguments_match(
            tool_of(expected),
            expected.text_at("arguments"@),
            actual.text_at("arguments"@),
        )
    } else {
        canonical::equal(expected, actual)
    }
}

/// The name of the tool that a function call calls.
pub open spec fn tool_of(item: JsonTree) -> Seq<char> {
    match item.text_at("name"@) {
        Some(name) => name,
        None => Seq::empty(),
    }
}

/// An item in canonical form as it is hashed: the arguments of a function call in canonical form
/// too.
pub open spec fn with_hashed_arguments(item: JsonTree) -> JsonTree {
    match item {
        JsonTree::Object(members) => {
            match (item.text_at("name"@), item.text_at("arguments"@)) {
                (Some(name), Some(arguments)) => match parsing::parsed(arguments) {
                    Some(value) => if is_kind(item, "function_call"@) {
                        JsonTree::Object(
                            canonical::with_member(
                                members,
                                json::member(
                                    "arguments"@,
                                    JsonTree::Text(encoding::encoded(arguments_form(name, value))),
                                ),
                            ),
                        )
                    } else {
                        item
                    },
                    None => item,
                },
                _ => item,
            }
        },
        _ => item,
    }
}

/// An item as it is hashed: in canonical form, the arguments of a function call too.
pub open spec fn hashed_item(item: JsonTree) -> JsonTree {
    with_hashed_arguments(canonical::canonical(item))
}

/// The items of a transcript as they are hashed.
pub open spec fn hashed_items(items: Seq<JsonTree>) -> Seq<JsonTree> {
    Seq::new(items.len(), |i: int| hashed_item(items[i]))
}

/// The digest of a list of JSON values, in canonical form.
pub open spec fn list_digest(values: Seq<JsonTree>) -> Seq<char> {
    digest::text_fingerprint(encoding::encoded(canonical::canonical(JsonTree::Array(values))))
}

/// The digest of a transcript.
pub open spec fn transcript_digest(items: Seq<JsonTree>) -> Seq<char> {
    list_digest(hashed_items(items))
}

/// An item as it is hashed.
pub fn canonical_transcript_item(item: &Json) -> (result: Json)
    ensures
        result@ == hashed_item(item@),
{
    broadcast use json::lemma_object_view;

    let item = canonical_json(item);
    let encoding = if item.text_at_is("type", "function_call") {
        match (item.text_at("name"), item.text_at("arguments")) {
            (Some(name), Some(arguments)) => match parse_json(arguments) {
                Some(value) => Some(encode_json(&canonical_function_call_arguments(name, value))),
                None => None,
            },
            _ => None,
        }
    } else {
        None
    };
    match (item, encoding) {
        (Json::Object(members), Some(encoding)) => {
            let mut members = members;
            put_member(
                &mut members,
                Member { key: "arguments".to_owned(), value: Json::Text(encoding) },
            );
            Json::Object(members)
        },
        (item, _) => item,
    }
}

/// The digest of a transcript.
pub fn hash_transcript(values: &[Json]) -> (hash: String)
    ensures
        hash@ == transcript_digest(json::trees(values@)),
{
    broadcast use json::lemma_trees_push;

    let ghost held = hashed_items(json::trees(values@));
    let mut normalized: Vec<Json> = Vec::new();
    let mut i: usize = 0;
    while i < values.len()
        invariant
            i <= values@.len(),
            held == hashed_items(json::trees(values@)),
            json::trees(normalized@) == held.take(i as int),
        decreases values@.len() - i,
    {
        normalized.push(canonical_transcript_item(&values[i]));
        i = i + 1;
        assert(held.take(i as int) =~= held.take(i - 1).push(hashed_item(values@[i - 1]@)));
    }
    assert(held.take(i as int) =~= held);
    hash_list(normalized.as_slice())
}

/// The digest of a list of JSON values, in canonical form.
pub fn hash_list(values: &[Json]) -> (hash: String)
    ensures
        hash@ == list_digest(json::trees(values@)),
{
    broadcast use {json::lemma_array_view, json::lemma_trees_push};

    let ghost held = canonical::all_canonical(json::trees(values@));
    let mut forms: Vec<Json> = Vec::new();
    let mut i: usize = 0;
    proof {
        canonical::lemma_all_canonical(json::trees(values@));
    }
    while i < values.len()
        invariant
            i <= values@.len() == held.len(),
            forall|j: int|
                0 <= j < held.len() ==> #[trigger] held[j] == canonical::canonical(values@[j]@),
            json::trees(forms@) == held.take(i as int),
        decreases values@.len() - i,
    {
        forms.push(canonical_json(&values[i]));
        i = i + 1;
        assert(held.take(i as int) =~= held.take(i - 1).push(held[i - 1]));
    }
    assert(held.take(i as int) =~= held);
    hash_json(&Json::Array(forms))
}

/// The arguments of a call are taken as they are, in canonical form, but for one default: of an edit
/// with a file, an old text and a new one that does not say whether it replaces all, they say that
/// it does not.
pub proof fn law_only_edits_have_a_default(tool: Seq<char>, arguments: JsonTree)
    ensures
        tool != "Edit"@ || arguments.get("file_path"@) is None || arguments.get("old_string"@)
            is None || arguments.get("new_string"@) is None || arguments.get("replace_all"@) is Some
            ==> arguments_form(tool, arguments) == canonical::canonical(arguments),
{
}

/// Two calls of a tool have the same arguments just where both have some and, read as JSON with the
/// default of the tool, they are the same; where one of them is no JSON, where the texts are.
pub proof fn law_arguments_are_compared_by_value(tool: Seq<char>, a: Seq<char>, b: Seq<char>)
    ensures
        arguments_match(tool, Some(a), Some(b)) <==> if parsing::parsed(a) is Some
            && parsing::parsed(b) is Some {
            canonical::same(
                arguments_form(tool, parsing::parsed(a)->0),
                arguments_form(tool, parsing::parsed(b)->0),
            )
        } else {
            a == b
        },
        !arguments_match(tool, None, Some(b)),
        !arguments_match(tool, Some(a), None),
        !arguments_match(tool, None, None),
{
}

/// Items that match are of one type. Reasoning matches by its identifier and its encrypted content,
/// a function call by its identifier, its tool and its arguments; of any other type, a message among
/// them, items match only where under every key they hold the same.
pub proof fn law_matching_items_hold_the_same(a: JsonTree, b: JsonTree)
    requires
        items_match(a, b),
    ensures
        a.text_at("type"@) == b.text_at("type"@),
        a.text_at("type"@) == Some("reasoning"@) ==> canonical::equal_options(
            a.get("id"@),
            b.get("id"@),
        ) && canonical::equal_options(a.get("encrypted_content"@), b.get("encrypted_content"@)),
        a.text_at("type"@) == Some("function_call"@) ==> canonical::equal_options(
            a.get("call_id"@),
            b.get("call_id"@),
        ) && canonical::equal_options(a.get("name"@), b.get("name"@)) && a.text_at(
            "arguments"@,
        ) is Some && b.text_at("arguments"@) is Some && arguments_match(
            match a.text_at("name"@) {
                Some(name) => name,
                None => Seq::empty(),
            },
            a.text_at("arguments"@),
            b.text_at("arguments"@),
        ),
        a.text_at("type"@) != Some("reasoning"@) && a.text_at("type"@) != Some("function_call"@)
            ==> canonical::equal(a, b) && forall|key: Seq<char>|
            match (#[trigger] a.get(key), b.get(key)) {
                (Some(x), Some(y)) => canonical::equal(x, y),
                (None, None) => true,
                _ => false,
            },
{
    reveal_strlit("reasoning");
    reveal_strlit("function_call");
    assert("reasoning"@.len() == 9 && "function_call"@.len() == 13);
    if a.text_at("type"@) != Some("reasoning"@) && a.text_at("type"@) != Some("function_call"@) {
        canonical::law_equal_values_hold_the_same(a, b);
    }
}

/// An item is hashed in canonical form. Only a function call with a name and arguments that are JSON
/// is hashed otherwise: its arguments are those of the canonical form, with the default of the tool,
/// and all else in it stays.
pub proof fn law_items_are_hashed_in_canonical_form(item: JsonTree)
    ensures
        item.text_at("type"@) != Some("function_call"@) || item.text_at("name"@) is None
            || item.text_at("arguments"@) is None || parsing::parsed(
            item.text_at("arguments"@)->0,
        ) is None ==> hashed_item(item) == canonical::canonical(item),
        item.text_at("type"@) == Some("function_call"@) && item.text_at("name"@) is Some
            && item.text_at("arguments"@) is Some && parsing::parsed(
            item.text_at("arguments"@)->0,
        ) is Some ==> {
            let form = arguments_form(
                item.text_at("name"@)->0,
                parsing::parsed(item.text_at("arguments"@)->0)->0,
            );
            &&& hashed_item(item).get("arguments"@) == Some(
                JsonTree::Text(encoding::encoded(form)),
            )
            &&& forall|key: Seq<char>|
                key != "arguments"@ ==> #[trigger] hashed_item(item).get(key)
                    == canonical::canonical(item).get(key)
        },
{
    canonical::law_canonical_form_keeps_the_value(item);
    if item is Object {
        let members = item->Object_0;
        canonical::lemma_get_canonical(members, "type"@);
        canonical::lemma_get_canonical(members, "name"@);
        canonical::lemma_get_canonical(members, "arguments"@);
        if item.text_at("type"@) == Some("function_call"@) && item.text_at("name"@) is Some
            && item.text_at("arguments"@) is Some && parsing::parsed(
            item.text_at("arguments"@)->0,
        ) is Some {
            let form = arguments_form(
                item.text_at("name"@)->0,
                parsing::parsed(item.text_at("arguments"@)->0)->0,
            );
            let written = json::member("arguments"@, JsonTree::Text(encoding::encoded(form)));
            let ordered = canonical::canonical(item)->Object_0;
            assert forall|key: Seq<char>| #[trigger]
                hashed_item(item).get(key) == if key == "arguments"@ {
                    Some(written.value)
                } else {
                    canonical::canonical(item).get(key)
                } by {
                canonical::lemma_lookup_with_member(ordered, written, key);
            }
        }
    }
}

/// The digest of a transcript is taken over every item of it in order: transcripts for which the
/// same is hashed have as many items, and what is hashed of each is written alike.
pub proof fn law_transcripts_are_hashed_item_by_item(a: Seq<JsonTree>, b: Seq<JsonTree>)
    requires
        encoding::has_json_numbers(canonical::canonical(JsonTree::Array(hashed_items(a)))),
        encoding::has_json_numbers(canonical::canonical(JsonTree::Array(hashed_items(b)))),
        encoding::encoded(canonical::canonical(JsonTree::Array(hashed_items(a))))
            == encoding::encoded(canonical::canonical(JsonTree::Array(hashed_items(b)))),
    ensures
        transcript_digest(a) == transcript_digest(b),
        a.len() == b.len(),
        forall|i: int|
            #![trigger a[i]]
            0 <= i < a.len() ==> crate::spelling::alike(
                canonical::canonical(hashed_item(a[i])),
                canonical::canonical(hashed_item(b[i])),
            ),
{
    let (x, y) = (hashed_items(a), hashed_items(b));
    crate::spelling::law_encoding_spells_one_value(
        canonical::canonical(JsonTree::Array(x)),
        canonical::canonical(JsonTree::Array(y)),
    );
    canonical::lemma_all_canonical(x);
    canonical::lemma_all_canonical(y);
    assert forall|i: int| #![trigger a[i]] 0 <= i < a.len() implies crate::spelling::alike(
        canonical::canonical(hashed_item(a[i])),
        canonical::canonical(hashed_item(b[i])),
    ) by {
        assert(crate::spelling::alike(
            canonical::all_canonical(x)[i],
            canonical::all_canonical(y)[i],
        ));
    }
}

}
