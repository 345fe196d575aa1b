//! Requests of the Responses API: the items of a conversation and what stands around them.

use vstd::prelude::*;
use vstd::string::*;

use crate::decimal::to_decimal;
use crate::decimal;
use crate::json::{push_member, push_text, Json, JsonTree, Member};
use crate::json;
use crate::text::same_text;

verus! {

/// A part of the content of a message.
#[derive(Debug, Clone)]
pub enum ResponsesContentPart {
    InputText { text: String },
    OutputText { text: String },
    /// A part of another kind, as it is encoded.
    Other(Json),
}

/// What a function call gave back.
#[derive(Debug, Clone)]
pub enum ResponsesFunctionCallOutput {
    Text(String),
    /// Structured output, as it is encoded.
    Other(Json),
}

/// An item of the input of a request.
#[derive(Debug, Clone)]
pub enum ResponsesInputItem {
    /// Tools added to a conversation, as they are encoded.
    AdditionalTools(Json),
    Message { role: String, content: Vec<ResponsesContentPart> },
    FunctionCall { call_id: String, name: String, arguments: String },
    FunctionCallOutput { call_id: String, output: ResponsesFunctionCallOutput },
    Reasoning { id: String, summary: Vec<Json>, encrypted_content: String },
    /// An item of another kind, as it is encoded.
    Other(Json),
}

/// How the server is asked to manage the context.
#[derive(Debug, Clone, Copy, PartialEq, Eq, Structural)]
pub enum ResponsesContextManagement {
    Compaction { compact_threshold: u64 },
}

/// A request. `included` names what the response is to include besides its items, and
/// `raw_input_override` holds the items that are sent in place of `input`, each as it is encoded.
#[derive(Debug, Clone)]
pub struct ResponsesRequest {
    pub model: String,
    pub instructions: Option<String>,
    pub input: Vec<ResponsesInputItem>,
    pub tools: Option<Json>,
    pub tool_choice: Option<Json>,
    pub store: bool,
    pub stream: bool,
    pub parallel_tool_calls: bool,
    pub included: Option<Vec<String>>,
    pub client_metadata: Option<Json>,
    pub service_tier: Option<String>,
    pub prompt_cache_key: Option<String>,
    pub text: Json,
    pub reasoning: Option<Json>,
    pub context_management: Option<Vec<ResponsesContextManagement>>,
    pub raw_input_override: Option<Vec<String>>,
}

impl ResponsesContentPart {
    /// The encoding of the part.
    pub open spec fn tree(self) -> JsonTree {
        match self {
            ResponsesContentPart::InputText { text } => JsonTree::Object(
                seq![
                    json::member("type"@, JsonTree::Text("input_text"@)),
                    json::member("text"@, JsonTree::Text(text@)),
                ],
            ),
            ResponsesContentPart::OutputText { text } => JsonTree::Object(
                seq![
                    json::member("type"@, JsonTree::Text("output_text"@)),
                    json::member("text"@, JsonTree::Text(text@)),
                ],
            ),
            ResponsesContentPart::Other(value) => value@,
        }
    }

    /// The encoding of the part.
    fn to_json(&self) -> (value: Json)
        ensures
            value@ == self.tree(),
    {
        broadcast use json::lemma_object_view;

        match self {
            ResponsesContentPart::InputText { text } => {
                let mut members: Vec<Member> = Vec::new();
                push_text(&mut members, "type", "input_text");
                push_text(&mut members, "text", text.as_str());
                assert(json::member_trees(members@) =~= self.tree()->Object_0);
                Json::Object(members)
            },
            ResponsesContentPart::OutputText { text } => {
                let mut members: Vec<Member> = Vec::new();
                push_text(&mut members, "type", "output_text");
                push_text(&mut members, "text", text.as_str());
                assert(json::member_trees(members@) =~= self.tree()->Object_0);
                Json::Object(members)
            },
            ResponsesContentPart::Other(value) => value.clone(),
        }
    }
}

/// The encodings of the parts of a message.
pub open spec fn part_trees(parts: Seq<ResponsesContentPart>) -> Seq<JsonTree> {
    Seq::new(parts.len(), |i: int| parts[i].tree())
}

/// The encodings of the parts of a message.
fn part_values(parts: &Vec<ResponsesContentPart>) -> (values: Vec<Json>)
    ensures
        json::trees(values@) == part_trees(parts@),
{
    broadcast use json::lemma_trees_push;

    let mut values: Vec<Json> = Vec::new();
    let mut i: usize = 0;
    while i < parts.len()
        invariant
            i <= parts@.len(),
            json::trees(values@) == part_trees(parts@).take(i as int),
        decreases parts@.len() - i,
    {
        values.push(parts[i].to_json());
        i = i + 1;
        assert(part_trees(parts@).take(i as int) =~= part_trees(parts@).take(i - 1).push(
            parts@[i - 1].tree(),
        ));
    }
    assert(json::trees(values@) =~= part_trees(parts@));
    values
}

/// Copies of JSON values.
pub fn copied_values(values: &Vec<Json>) -> (copies: Vec<Json>)
    ensures
        json::trees(copies@) == json::trees(values@),
{
    broadcast use json::lemma_trees_push;

    let mut copies: Vec<Json> = Vec::new();
    let mut i: usize = 0;
    while i < values.len()
        invariant
            i <= values@.len(),
            json::trees(copies@) == json::trees(values@).take(i as int),
        decreases values@.len() - i,
    {
        copies.push(values[i].clone());
        i = i + 1;
        assert(json::trees(values@).take(i as int) =~= json::trees(values@).take(i - 1).push(
            values@[i - 1]@,
        ));
    }
    assert(json::trees(copies@) =~= json::trees(values@));
    copies
}

impl ResponsesFunctionCallOutput {
    /// The encoding of the output.
    pub open spec fn tree(self) -> JsonTree {
        match self {
            ResponsesFunctionCallOutput::Text(text) => JsonTree::Text(text@),
            ResponsesFunctionCallOutput::Other(value) => value@,
        }
    }

    /// The encoding of the output.
    fn to_json(&self) -> (value: Json)
        ensures
            value@ == self.tree(),
    {
        match self {
            ResponsesFunctionCallOutput::Text(text) => Json::Text(text.clone()),
            ResponsesFunctionCallOutput::Other(value) => value.clone(),
        }
    }
}

impl ResponsesInputItem {
    /// The encoding of the item.
    pub open spec fn tree(self) -> JsonTree {
        match self {
            ResponsesInputItem::AdditionalTools(value) => value@,
            ResponsesInputItem::Message { role, content } => JsonTree::Object(
                seq![
                    json::member("type"@, JsonTree::Text("message"@)),
                    json::member("role"@, JsonTree::Text(role@)),
                    json::member("content"@, JsonTree::Array(part_trees(content@))),
                ],
            ),
            ResponsesInputItem::FunctionCall { call_id, name, arguments } => JsonTree::Object(
                seq![
                    json::member("type"@, JsonTree::Text("function_call"@)),
                    json::member("call_id"@, JsonTree::Text(call_id@)),
                    json::member("name"@, JsonTree::Text(name@)),
                    json::member("arguments"@, JsonTree::Text(arguments@)),
                ],
            ),
            ResponsesInputItem::FunctionCallOutput { call_id, output } => JsonTree::Object(
                seq![
                    json::member("type"@, JsonTree::Text("function_call_output"@)),
                    json::member("call_id"@, JsonTree::Text(call_id@)),
                    json::member("output"@, output.tree()),
                ],
            ),
            ResponsesInputItem::Reasoning { id, summary, encrypted_content } => JsonTree::Object(
                seq![
                    json::member("type"@, JsonTree::Text("reasoning"@)),
                    json::member("id"@, JsonTree::Text(id@)),
                    json::member("summary"@, JsonTree::Array(json::trees(summary@))),
                    json::member("encrypted_content"@, JsonTree::Text(encrypted_content@)),
                ],
            ),
            ResponsesInputItem::Other(value) => value@,
        }
    }

    /// Whether the item belongs to the envelope of a request: tools, or a developer message.
    pub open spec fn in_envelope(self) -> bool {
        match self {
            ResponsesInputItem::AdditionalTools(_) => true,
            ResponsesInputItem::Message { role, .. } => role@ == "developer"@,
            _ => false,
        }
    }

    /// The encoding of the item.
    pub fn to_json(&self) -> (value: Json)
        ensures
            value@ == self.tree(),
    {
        broadcast use {json::lemma_object_view, json::lemma_array_view};

        let mut members: Vec<Member> = Vec::new();
        match self {
            ResponsesInputItem::AdditionalTools(value) => { return value.clone(); },
            ResponsesInputItem::Message { role, content } => {
                push_text(&mut members, "type", "message");
                push_text(&mut members, "role", role.as_str());
                push_member(&mut members, "content", Json::Array(part_values(content)));
            },
            ResponsesInputItem::FunctionCall { call_id, name, arguments } => {
                push_text(&mut members, "type", "function_call");
                push_text(&mut members, "call_id", call_id.as_str());
                push_text(&mut members, "name", name.as_str());
                push_text(&mut members, "arguments", arguments.as_str());
            },
            ResponsesInputItem::FunctionCallOutput { call_id, output } => {
                push_text(&mut members, "type", "function_call_output");
                push_text(&mut members, "call_id", call_id.as_str());
                push_member(&mut members, "output", output.to_json());
            },
            ResponsesInputItem::Reasoning { id, summary, encrypted_content } => {
                push_text(&mut members, "type", "reasoning");
                push_text(&mut members, "id", id.as_str());
                push_member(&mut members, "summary", Json::Array(copied_values(summary)));
                push_text(&mut members, "encrypted_content", encrypted_content.as_str());
            },
            ResponsesInputItem::Other(value) => { return value.clone(); },
        }
        assert(json::member_trees(members@) =~= self.tree()->Object_0);
        Json::Object(members)
    }

    /// Whether the item belongs to the envelope of a request.
    pub fn is_envelope_item(&self) -> (result: bool)
        ensures
            result == self.in_envelope(),
    {
        match self {
            ResponsesInputItem::AdditionalTools(_) => true,
            ResponsesInputItem::Message { role, .. } => {
                same_text(role.as_str(), "developer")
            },
            _ => false,
        }
    }
}

/// The encodings of the items of a request.
pub open spec fn item_trees(items: Seq<ResponsesInputItem>) -> Seq<JsonTree> {
    Seq::new(items.len(), |i: int| items[i].tree())
}

/// A number as a JSON value.
pub open spec fn number_tree(n: u64) -> JsonTree {
    JsonTree::Number(decimal::decimal(n as nat), Some(n))
}

impl ResponsesContextManagement {
    /// The encoding of the demand.
    pub open spec fn tree(self) -> JsonTree {
        match self {
            ResponsesContextManagement::Compaction { compact_threshold } => JsonTree::Object(
                seq![
                    json::member("type"@, JsonTree::Text("compaction"@)),
                    json::member("compact_threshold"@, number_tree(compact_threshold)),
                ],
            ),
        }
    }

    /// The encoding of the demand.
    pub fn to_json(&self) -> (value: Json)
        ensures
            value@ == self.tree(),
    {
        broadcast use json::lemma_object_view;

        match self {
            ResponsesContextManagement::Compaction { compact_threshold } => {
                let mut members: Vec<Member> = Vec::new();
                push_text(&mut members, "type", "compaction");
                push_member(
                    &mut members,
                    "compact_threshold",
                    Json::Number {
                        text: to_decimal(*compact_threshold),
                        unsigned: Some(*compact_threshold),
                    },
                );
                assert(json::member_trees(members@) =~= self.tree()->Object_0);
                Json::Object(members)
            },
        }
    }
}

/// The encodings of the demands on context management.
pub open spec fn management_trees(demands: Seq<ResponsesContextManagement>) -> Seq<JsonTree> {
    Seq::new(demands.len(), |i: int| demands[i].tree())
}

/// The encodings of the demands on context management.
pub fn management_values(demands: &Vec<ResponsesContextManagement>) -> (values: Vec<Json>)
    ensures
        json::trees(values@) == management_trees(demands@),
{
    broadcast use json::lemma_trees_push;

    let mut values: Vec<Json> = Vec::new();
    let mut i: usize = 0;
    while i < demands.len()
        invariant
            i <= demands@.len(),
            json::trees(values@) == management_trees(demands@).take(i as int),
        decreases demands@.len() - i,
    {
        values.push(demands[i].to_json());
        i = i + 1;
        assert(management_trees(demands@).take(i as int) =~= management_trees(demands@).take(
            i - 1,
        ).push(demands@[i - 1].tree()));
    }
    assert(json::trees(values@) =~= management_trees(demands@));
    values
}

/// How many items at the front belong to the envelope of a request.
pub open spec fn envelope_length(items: Seq<ResponsesInputItem>) -> int
    decreases items.len(),
{
    if items.len() > 0 && items[0].in_envelope() {
        1 + envelope_length(items.drop_first())
    } else {
        0
    }
}

/// The envelope of a request is no longer than its items.
pub proof fn lemma_envelope_length(items: Seq<ResponsesInputItem>)
    ensures
        0 <= envelope_length(items) <= items.len(),
    decreases items.len(),
{
    if items.len() > 0 {
        lemma_envelope_length(items.drop_first());
    }
}

/// How many items at the front belong to the envelope of a request.
pub fn envelope_size(items: &Vec<ResponsesInputItem>) -> (count: usize)
    ensures
        count == envelope_length(items@),
        count <= items@.len(),
{
    let mut count: usize = 0;
    assert(items@.skip(0) =~= items@);
    while count < items.len() && items[count].is_envelope_item()
        invariant
            count <= items@.len(),
            envelope_length(items@) == count + envelope_length(items@.skip(count as int)),
        decreases items@.len() - count,
    {
        assert(items@.skip(count as int).drop_first() =~= items@.skip(count + 1));
        count = count + 1;
    }
    count
}

/// The envelope of a request is the longest front of its items that holds nothing but additional
/// tools and messages of the developer: a message is in it just where its role is `developer`.
pub proof fn law_envelope_is_the_longest_front(items: Seq<ResponsesInputItem>)
    ensures
        0 <= envelope_length(items) <= items.len(),
        forall|i: int|
            0 <= i < envelope_length(items) ==> ((#[trigger] items[i]) is AdditionalTools || (
            items[i] matches ResponsesInputItem::Message { role, .. } && role@ == "developer"@)),
        envelope_length(items) < items.len() ==> !(items[envelope_length(items)] is AdditionalTools)
            && !(items[envelope_length(items)] matches ResponsesInputItem::Message { role, .. }
            && role@ == "developer"@),
    decreases items.len(),
{
    if items.len() > 0 && items[0].in_envelope() {
        let rest = items.drop_first();
        law_envelope_is_the_longest_front(rest);
        assert forall|i: int| 0 <= i < envelope_length(items) implies ((
        #[trigger] items[i]) is AdditionalTools || (
        items[i] matches ResponsesInputItem::Message { role, .. } && role@ == "developer"@)) by {
            if i > 0 {
                assert(items[i] == rest[i - 1]);
            }
        }
        if envelope_length(items) < items.len() {
            assert(items[envelope_length(items)] == rest[envelope_length(rest)]);
        }
    }
}

/// A front of tools and messages of the developer lies within the envelope.
pub proof fn law_developer_front_is_in_the_envelope(items: Seq<ResponsesInputItem>, count: int)
    requires
        0 <= count <= items.len(),
        forall|i: int|
            0 <= i < count ==> ((#[trigger] items[i]) is AdditionalTools || (
            items[i] matches ResponsesInputItem::Message { role, .. } && role@ == "developer"@)),
    ensures
        count <= envelope_length(items),
{
    law_envelope_is_the_longest_front(items);
}

/// The encoding of an item has its type and each of its fields under the name that the interface
/// gives to it, and nothing else.
pub proof fn law_items_are_encoded_field_by_field(item: ResponsesInputItem)
    ensures
        match item {
            ResponsesInputItem::AdditionalTools(value) => item.tree() == value@,
            ResponsesInputItem::Other(value) => item.tree() == value@,
            ResponsesInputItem::Message { role, content } => {
                &&& item.tree() is Object && item.tree()->Object_0.len() == 3
                &&& item.tree().get("type"@) == Some(JsonTree::Text("message"@))
                &&& item.tree().get("role"@) == Some(JsonTree::Text(role@))
                &&& item.tree().get("content"@) matches Some(JsonTree::Array(parts))
                &&& parts.len() == content@.len()
                &&& forall|i: int|
                    0 <= i < parts.len() ==> (match content@[i] {
                        ResponsesContentPart::InputText { text } => {
                            &&& (#[trigger] parts[i]) is Object && parts[i]->Object_0.len() == 2
                            &&& parts[i].get("type"@) == Some(JsonTree::Text("input_text"@))
                            &&& parts[i].get("text"@) == Some(JsonTree::Text(text@))
                        },
                        ResponsesContentPart::OutputText { text } => {
                            &&& parts[i] is Object && parts[i]->Object_0.len() == 2
                            &&& parts[i].get("type"@) == Some(JsonTree::Text("output_text"@))
                            &&& parts[i].get("text"@) == Some(JsonTree::Text(text@))
                        },
                        ResponsesContentPart::Other(value) => parts[i] == value@,
                    })
            },
            ResponsesInputItem::FunctionCall { call_id, name, arguments } => {
                &&& item.tree() is Object && item.tree()->Object_0.len() == 4
                &&& item.tree().get("type"@) == Some(JsonTree::Text("function_call"@))
                &&& item.tree().get("call_id"@) == Some(JsonTree::Text(call_id@))
                &&& item.tree().get("name"@) == Some(JsonTree::Text(name@))
                &&& item.tree().get("arguments"@) == Some(JsonTree::Text(arguments@))
            },
            ResponsesInputItem::FunctionCallOutput { call_id, output } => {
                &&& item.tree() is Object && item.tree()->Object_0.len() == 3
                &&& item.tree().get("type"@) == Some(JsonTree::Text("function_call_output"@))
                &&& item.tree().get("call_id"@) == Some(JsonTree::Text(call_id@))
                &&& item.tree().get("output"@) == Some(
                    match output {
                        ResponsesFunctionCallOutput::Text(text) => JsonTree::Text(text@),
                        ResponsesFunctionCallOutput::Other(value) => value@,
                    },
                )
            },
            ResponsesInputItem::Reasoning { id, summary, encrypted_content } => {
                &&& item.tree() is Object && item.tree()->Object_0.len() == 4
                &&& item.tree().get("type"@) == Some(JsonTree::Text("reasoning"@))
                &&& item.tree().get("id"@) == Some(JsonTree::Text(id@))
                &&& item.tree().get("summary"@) matches Some(JsonTree::Array(parts))
                &&& parts.len() == summary@.len()
                &&& forall|i: int| 0 <= i < parts.len() ==> #[trigger] parts[i] == summary@[i]@
                &&& item.tree().get("encrypted_content"@) == Some(
                    JsonTree::Text(encrypted_content@),
                )
            },
        },
{
    reveal_strlit("type");
    reveal_strlit("role");
    reveal_strlit("content");
    reveal_strlit("text");
    reveal_strlit("call_id");
    reveal_strlit("name");
    reveal_strlit("arguments");
    reveal_strlit("output");
    reveal_strlit("id");
    reveal_strlit("summary");
    reveal_strlit("encrypted_content");
    assert("type"@[0] == 't' && "role"@[0] == 'r' && "content"@[0] == 'c' && "content"@[1] == 'o');
    assert("text"@[1] == 'e' && "type"@[1] == 'y' && "text"@[0] == 't');
    assert("call_id"@[0] == 'c' && "call_id"@[1] == 'a' && "name"@[0] == 'n');
    assert("arguments"@[0] == 'a' && "output"@[0] == 'o' && "id"@[0] == 'i');
    assert("summary"@[0] == 's' && "encrypted_content"@[0] == 'e');
    reveal_with_fuel(json::lookup, 5);
    match item {
        ResponsesInputItem::Message { role, content } => {
            let parts = part_trees(content@);
            let members = item.tree()->Object_0;
            assert(members.drop_last().drop_last().last() == members[0]);
            assert(members.drop_last().last() == members[1]);
            assert forall|i: int| 0 <= i < parts.len() implies (match content@[i] {
                ResponsesContentPart::Other(value) => parts[i] == value@,
                _ => {
                    let inner = (#[trigger] parts[i])->Object_0;
                    inner.drop_last().last() == inner[0]
                },
            }) by {}
        },
        ResponsesInputItem::FunctionCallOutput { .. } => {
            let members = item.tree()->Object_0;
            assert(members.drop_last().drop_last().last() == members[0]);
            assert(members.drop_last().last() == members[1]);
        },
        ResponsesInputItem::FunctionCall { .. } => {
            let members = item.tree()->Object_0;
            assert(members.drop_last().drop_last().drop_last().last() == members[0]);
            assert(members.drop_last().drop_last().last() == members[1]);
            assert(members.drop_last().last() == members[2]);
        },
        ResponsesInputItem::Reasoning { .. } => {
            let members = item.tree()->Object_0;
            assert(members.drop_last().drop_last().drop_last().last() == members[0]);
            assert(members.drop_last().drop_last().last() == members[1]);
            assert(members.drop_last().last() == members[2]);
        },
        _ => {},
    }
}

/// The demand to compact is encoded with its type and its threshold, in decimal digits.
pub proof fn law_demands_are_encoded_with_their_threshold(compact_threshold: u64)
    ensures
        ({
            let tree = (ResponsesContextManagement::Compaction { compact_threshold }).tree();
            &&& tree is Object && tree->Object_0.len() == 2
            &&& tree.get("type"@) == Some(JsonTree::Text("compaction"@))
            &&& tree.get("compact_threshold"@) matches Some(JsonTree::Number(text, unsigned))
            &&& unsigned == Some(compact_threshold)
            &&& decimal::digits_value(text) == compact_threshold
            &&& decimal::all_digits(text)
        }),
{
    reveal_strlit("type");
    reveal_strlit("compact_threshold");
    assert("type"@.len() == 4 && "compact_threshold"@.len() == 17);
    reveal_with_fuel(json::lookup, 3);
    let tree = (ResponsesContextManagement::Compaction { compact_threshold }).tree();
    let members = tree->Object_0;
    assert(members.drop_last().last() == members[0]);
    decimal::lemma_decimal_digits(compact_threshold as nat);
    decimal::law_decimal_digits_have_the_value(compact_threshold as nat);
}

}
