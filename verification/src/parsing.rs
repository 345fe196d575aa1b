//! JSON texts: what `serde_json` reads out of them.

use vstd::prelude::*;
use vstd::string::*;

use crate::canonical;
use crate::decimal;
use crate::encoding;
use crate::json::{Json, JsonTree, Member, MemberTree};
use crate::json;
use crate::text::same_text;
use crate::text;

verus! {

/// A JSON value of `serde_json`.
#[verifier::external_type_specification]
#[verifier::external_body]
pub struct ExValue(serde_json::Value);

/// The reason why `serde_json` refused a text.
#[verifier::external_type_specification]
#[verifier::external_body]
pub struct ExError(serde_json::Error);

/// What a value of `serde_json` holds.
pub uninterp spec fn value_tree(value: serde_json::Value) -> JsonTree;

/// What `serde_json::from_str` reads out of a text as a JSON value, or `None` where it refuses
/// the text.
pub uninterp spec fn parsed(text: Seq<char>) -> Option<JsonTree>;

/// How deep arrays and objects may be nested for `serde_json` to read them as a value.
pub open spec fn max_levels() -> nat {
    127
}

/// Whether a number is an integer as `serde_json` prints it: one that fits into 64 bits without a
/// sign, or a negative one that fits into them with a sign.
pub open spec fn is_integer(text: Seq<char>, unsigned: Option<u64>) -> bool {
    match unsigned {
        Some(n) => text == decimal::decimal(n as nat),
        None => exists|m: u64|
            1 <= m <= 0x8000_0000_0000_0000 && text == seq!['-'] + #[trigger] decimal::decimal(
                m as nat,
            ),
    }
}

/// Whether a value is nested at most `levels` deep, its numbers are integers, and no key in it is
/// the one by which `serde_json` marks a raw value.
pub open spec fn is_plain(value: JsonTree, levels: nat) -> bool
    decreases value,
{
    match value {
        JsonTree::Number(text, unsigned) => is_integer(text, unsigned),
        JsonTree::Array(items) => {
            &&& levels > 0
            &&& forall|i: int|
                0 <= i < items.len() ==> is_plain(#[trigger] items[i], (levels - 1) as nat)
        },
        JsonTree::Object(members) => {
            &&& levels > 0
            &&& forall|i: int|
                0 <= i < members.len() ==> (#[trigger] members[i]).key
                    != "$serde_json::private::RawValue"@ && is_plain(
                    members[i].value,
                    (levels - 1) as nat,
                )
        },
        _ => true,
    }
}

/// Whether `read` is what the compact encoding of a plain value is read as, where `text` is one: the
/// canonical form of the value.
pub open spec fn reads_back(text: Seq<char>, read: Option<JsonTree>) -> bool {
    forall|tree: JsonTree|
        text == #[trigger] encoding::encoded(tree) && is_plain(tree, max_levels()) ==> read == Some(
            canonical::canonical(tree),
        )
}

/// What was read, where a value was.
pub open spec fn read_tree(value: Result<serde_json::Value, serde_json::Error>) -> Option<
    JsonTree,
> {
    match value {
        Ok(value) => Some(value_tree(value)),
        Err(_) => None,
    }
}

/// The outermost layer of a value of `serde_json`.
enum Layer {
    Null,
    Bool(bool),
    Number(String, Option<u64>),
    Text(String),
    Array(Vec<serde_json::Value>),
    Object(Vec<(String, serde_json::Value)>),
}

/// What each value of a sequence holds.
spec fn value_trees(values: Seq<serde_json::Value>) -> Seq<JsonTree> {
    Seq::new(values.len(), |i: int| value_tree(values[i]))
}

/// What each member of a sequence holds.
spec fn entry_trees(entries: Seq<(String, serde_json::Value)>) -> Seq<MemberTree> {
    Seq::new(
        entries.len(),
        |i: int| MemberTree { key: entries[i].0@, value: value_tree(entries[i].1) },
    )
}

impl Layer {
    /// What the layer holds, with all that is below it.
    spec fn tree(self) -> JsonTree {
        match self {
            Layer::Null => JsonTree::Null,
            Layer::Bool(b) => JsonTree::Bool(b),
            Layer::Number(text, unsigned) => JsonTree::Number(text@, unsigned),
            Layer::Text(text) => JsonTree::Text(text@),
            Layer::Array(values) => JsonTree::Array(value_trees(values@)),
            Layer::Object(entries) => JsonTree::Object(entry_trees(entries@)),
        }
    }
}

/// `serde_json::from_str` at the type `serde_json::Value`. Whether it accepts the text, and what
/// it then reads, is a function of the text. The compact encoding of a plain value is read back as
/// that value, with the members of its objects by increasing key, as the map of `serde_json` lists
/// them.
#[verifier::external_body]
fn read_value(text: &str) -> (value: Result<serde_json::Value, serde_json::Error>)
    ensures
        read_tree(value) == parsed(text@),
        reads_back(text@, read_tree(value)),
{
    serde_json::from_str(text)
}

/// The six variants of `serde_json::Value`, told apart: an array holds what its items hold in
/// order, an object its entries in the order in which its map lists them, a number the text that
/// `Number` prints and the value of `Number::as_u64`.
#[verifier::external_body]
fn outer_layer(value: serde_json::Value) -> (layer: Layer)
    ensures
        layer.tree() == value_tree(value),
{
    match value {
        serde_json::Value::Null => Layer::Null,
        serde_json::Value::Bool(b) => Layer::Bool(b),
        serde_json::Value::Number(n) => Layer::Number(n.to_string(), n.as_u64()),
        serde_json::Value::String(text) => Layer::Text(text),
        serde_json::Value::Array(items) => Layer::Array(items),
        serde_json::Value::Object(map) => Layer::Object(map.into_iter().collect()),
    }
}

/// The value with all its layers.
fn all_layers(value: serde_json::Value) -> (json: Json)
    ensures
        json@ == value_tree(value),
    decreases value_tree(value),
{
    broadcast use {json::lemma_array_view, json::lemma_object_view};

    let ghost whole = value_tree(value);
    match outer_layer(value) {
        Layer::Null => Json::Null,
        Layer::Bool(b) => Json::Bool(b),
        Layer::Number(text, unsigned) => Json::Number { text, unsigned },
        Layer::Text(text) => Json::Text(text),
        Layer::Array(values) => {
            let ghost held = value_trees(values@);
            let mut rest = values;
            let mut items: Vec<Json> = Vec::new();
            while rest.len() > 0
                invariant
                    whole == value_tree(value),
                    whole == JsonTree::Array(held),
                    items@.len() + rest@.len() == held.len(),
                    forall|i: int| 0 <= i < rest@.len() ==> value_tree(#[trigger] rest@[i]) == held[i],
                    forall|i: int|
                        0 <= i < items@.len() ==> (#[trigger] items@[i])@ == held[held.len() - 1 - i],
                decreases rest@.len(),
            {
                let next = rest.pop().unwrap();
                assert(value_tree(next) == held[rest@.len() as int]);
                assert(decreases_to!(whole => whole->Array_0));
                items.push(all_layers(next));
            }
            let items = reversed(items);
            assert(json::trees(items@) =~= held);
            Json::Array(items)
        },
        Layer::Object(entries) => {
            let ghost held = entry_trees(entries@);
            let mut rest = entries;
            let mut members: Vec<Member> = Vec::new();
            while rest.len() > 0
                invariant
                    whole == value_tree(value),
                    whole == JsonTree::Object(held),
                    members@.len() + rest@.len() == held.len(),
                    forall|i: int|
                        0 <= i < rest@.len() ==> (#[trigger] rest@[i]).0@ == held[i].key
                            && value_tree(rest@[i].1) == held[i].value,
                    forall|i: int|
                        0 <= i < members@.len() ==> (#[trigger] members@[i])@ == held[held.len() - 1
                            - i],
                decreases rest@.len(),
            {
                let (key, next) = rest.pop().unwrap();
                let ghost entry = held[rest@.len() as int];
                assert(value_tree(next) == entry.value);
                assert(decreases_to!(whole => whole->Object_0));
                assert(decreases_to!(held => entry));
                assert(decreases_to!(entry => entry.value));
                members.push(Member { key, value: all_layers(next) });
            }
            let members = reversed(members);
            assert(json::member_trees(members@) =~= held);
            Json::Object(members)
        },
    }
}

/// The elements from the last to the first.
fn reversed<T>(elements: Vec<T>) -> (result: Vec<T>)
    ensures
        result@ == elements@.reverse(),
{
    let ghost whole = elements@;
    let mut rest = elements;
    let mut result: Vec<T> = Vec::new();
    while rest.len() > 0
        invariant
            result@.len() + rest@.len() == whole.len(),
            forall|i: int| 0 <= i < rest@.len() ==> rest@[i] == whole[i],
            forall|i: int| 0 <= i < result@.len() ==> result@[i] == whole[whole.len() - 1 - i],
        decreases rest@.len(),
    {
        result.push(rest.pop().unwrap());
    }
    assert(result@ =~= whole.reverse());
    result
}

/// Reads a JSON value out of `text`. What is read out of the compact encoding of a plain value is
/// the canonical form of that value.
pub fn parse_json(text: &str) -> (json: Option<Json>)
    ensures
        json is Some <==> parsed(text@) is Some,
        json matches Some(j) ==> parsed(text@) == Some(j@),
        reads_back(text@, parsed(text@)),
{
    match read_value(text) {
        Ok(value) => Some(all_layers(value)),
        Err(_) => None,
    }
}

/// Whether a text is the compact encoding of a value whose numbers are numbers as JSON writes them.
pub open spec fn is_encoding(text: Seq<char>) -> bool {
    exists|tree: JsonTree|
        text == #[trigger] encoding::encoded(tree) && encoding::has_json_numbers(tree)
}

/// Whether `RawValue::from_string` accepts the text, that is, whether it is one JSON value.
pub uninterp spec fn raw_accepted(text: Seq<char>) -> bool;

/// `serde_json::value::RawValue::from_string`: it checks that the text is one JSON value and
/// keeps it as it is. Whether it accepts the text is a function of the text. It accepts what
/// `serde_json::from_str` reads as a value, and the compact encoding of every value whose numbers
/// are numbers as JSON writes them, however deep it is nested and whatever its keys are.
#[verifier::external_body]
pub(crate) fn is_raw_json(text: &str) -> (accepted: bool)
    ensures
        accepted == raw_accepted(text@),
        parsed(text@) is Some ==> accepted,
        is_encoding(text@) ==> accepted,
{
    serde_json::value::RawValue::from_string(text.to_string()).is_ok()
}

/// The members of a JSON object as they come out of a map from keys to `RawValue` that
/// `serde_json::from_str` reads: each key with the text of its value, character for character.
/// `None` where the text is no object.
pub uninterp spec fn raw_members(text: Seq<char>) -> Option<Seq<(Seq<char>, Seq<char>)>>;

/// The elements of a JSON array as they come out of a list of `RawValue` that
/// `serde_json::from_str` reads: the text of each, character for character. `None` where the text
/// is no array.
pub uninterp spec fn raw_elements(text: Seq<char>) -> Option<Seq<Seq<char>>>;

/// What pairs of strings hold.
pub open spec fn pair_texts(pairs: Seq<(String, String)>) -> Seq<(Seq<char>, Seq<char>)> {
    Seq::new(pairs.len(), |i: int| (pairs[i].0@, pairs[i].1@))
}

/// What optional pairs of strings hold.
pub open spec fn optional_pairs(pairs: Option<Vec<(String, String)>>) -> Option<
    Seq<(Seq<char>, Seq<char>)>,
> {
    match pairs {
        Some(pairs) => Some(pair_texts(pairs@)),
        None => None,
    }
}

/// What an optional list of strings holds.
pub open spec fn optional_texts(strings: Option<Vec<String>>) -> Option<Seq<Seq<char>>> {
    match strings {
        Some(strings) => Some(text::texts(strings@)),
        None => None,
    }
}

/// Members as they are written in the compact encoding: each key with the encoding of its value.
pub open spec fn written_members(members: Seq<MemberTree>) -> Seq<(Seq<char>, Seq<char>)> {
    Seq::new(members.len(), |i: int| (members[i].key, encoding::encoded(members[i].value)))
}

/// Whether `pairs` are the members of the object that `text` is the compact encoding of, where it
/// is one: by increasing key, of two with one key the later.
pub open spec fn tells_members(
    text: Seq<char>,
    pairs: Option<Seq<(Seq<char>, Seq<char>)>>,
) -> bool {
    forall|members: Seq<MemberTree>|
        text == #[trigger] encoding::encoded(JsonTree::Object(members))
            && encoding::has_json_numbers(JsonTree::Object(members)) ==> pairs == Some(
            written_members(canonical::ordered(members)),
        )
}

/// Whether `elements` are those of the array that `text` is the compact encoding of, where it is
/// one.
pub open spec fn tells_elements(text: Seq<char>, elements: Option<Seq<Seq<char>>>) -> bool {
    forall|items: Seq<JsonTree>|
        text == #[trigger] encoding::encoded(JsonTree::Array(items)) && encoding::has_json_numbers(
            JsonTree::Array(items),
        ) ==> elements == Some(encoding::all_encoded(items))
}

/// `serde_json::from_str` at a map from keys to `RawValue`, with all its entries: what they are is
/// a function of the text. Out of the compact encoding of an object come its members by increasing
/// key, of two with one key the later, each with the encoding of its value.
#[verifier::external_body]
pub(crate) fn read_raw_members(text: &str) -> (pairs: Option<Vec<(String, String)>>)
    ensures
        optional_pairs(pairs) == raw_members(text@),
        tells_members(text@, optional_pairs(pairs)),
{
    let map: std::collections::BTreeMap<String, Box<serde_json::value::RawValue>> =
        serde_json::from_str(text).ok()?;
    Some(map.into_iter().map(|(key, raw)| (key, raw.get().to_string())).collect())
}

/// `serde_json::from_str` at a list of `RawValue`, with all its elements: what they are is a
/// function of the text. Out of the compact encoding of an array come the encodings of its items.
#[verifier::external_body]
pub(crate) fn read_raw_elements(text: &str) -> (elements: Option<Vec<String>>)
    ensures
        optional_texts(elements) == raw_elements(text@),
        tells_elements(text@, optional_texts(elements)),
{
    let list: Vec<Box<serde_json::value::RawValue>> = serde_json::from_str(text).ok()?;
    Some(list.into_iter().map(|raw| raw.get().to_string()).collect())
}

/// What stands beside the key `key`.
pub open spec fn beside(pairs: Seq<(Seq<char>, Seq<char>)>, key: Seq<char>) -> Option<Seq<char>>
    decreases pairs.len(),
{
    if pairs.len() == 0 {
        None
    } else if pairs.last().0 == key {
        Some(pairs.last().1)
    } else {
        beside(pairs.drop_last(), key)
    }
}

/// What stands beside the key `key`.
pub(crate) fn find_beside(pairs: &Vec<(String, String)>, key: &str) -> (raw: Option<String>)
    ensures
        text::optional_text(raw) == beside(pair_texts(pairs@), key@),
{
    let ghost held = pair_texts(pairs@);
    let mut i: usize = pairs.len();
    assert(held.take(i as int) =~= held);
    while i > 0
        invariant
            i <= pairs@.len(),
            held == pair_texts(pairs@),
            beside(held, key@) == beside(held.take(i as int), key@),
        decreases i,
    {
        assert(held.take(i as int).drop_last() =~= held.take(i - 1));
        i = i - 1;
        if same_text(pairs[i].0.as_str(), key) {
            return Some(pairs[i].1.clone());
        }
    }
    None
}

/// Beside a key stands the encoding of the member that is found under it.
proof fn lemma_beside_written(members: Seq<MemberTree>, key: Seq<char>)
    ensures
        beside(written_members(members), key) == match json::lookup(members, key) {
            Some(value) => Some(encoding::encoded(value)),
            None => None,
        },
    decreases members.len(),
{
    if members.len() > 0 {
        lemma_beside_written(members.drop_last(), key);
        assert(written_members(members).drop_last() =~= written_members(members.drop_last()));
    }
}

/// Beside a key in the members of a compact encoding stands the encoding of the member.
pub proof fn lemma_beside_encoding(members: Seq<MemberTree>, key: Seq<char>)
    ensures
        beside(written_members(canonical::ordered(members)), key) == match json::lookup(
            members,
            key,
        ) {
            Some(value) => Some(encoding::encoded(value)),
            None => None,
        },
{
    canonical::law_ordering_keeps_members(members);
    lemma_beside_written(canonical::ordered(members), key);
    assert(json::lookup(canonical::ordered(members), key) == json::lookup(members, key));
}

/// The text of the member `key` of a JSON object, character for character.
pub open spec fn raw_member(text: Seq<char>, key: Seq<char>) -> Option<Seq<char>> {
    match raw_members(text) {
        Some(pairs) => beside(pairs, key),
        None => None,
    }
}

/// The text of the member `key` of the JSON object that `text` is, character for character.
pub(crate) fn read_raw_member(text: &str, key: &str) -> (raw: Option<String>)
    ensures
        text::optional_text(raw) == raw_member(text@, key@),
{
    match read_raw_members(text) {
        Some(pairs) => find_beside(&pairs, key),
        None => None,
    }
}

}
