//! The sidecar: the state of a lane as it is kept on disk, when it is valid, and how it is sealed.

use vstd::prelude::*;
use vstd::string::*;

use crate::decimal::to_decimal;
use crate::digest::{hash_raw_fragments, hash_text};
use crate::digest;
use crate::encoding::encode_json;
use crate::encoding;
use crate::error::{InlineCompactionError, IoFailure, IoKind};
use crate::json::{push_member, push_text, text_values, Json, JsonTree, Member};
use crate::json;
use crate::parsing::{is_raw_json, parse_json};
use crate::parsing;
use crate::recognition::{Recognition, RecognitionView};
use crate::recognition;
use crate::request;
use crate::text::same_text;
use crate::text;
use crate::transcript;

verus! {

/// The version of the sidecar format.
pub const SIDECAR_VERSION: u32 = 1;

/// The largest sidecar in bytes: 64 MiB.
pub const MAX_STATE_BYTES: u64 = 67_108_864;

/// The state of a lane: the latest compaction item and the items behind it, each as it came, and
/// by what the transcript that it belongs to is recognised. Of the output that was visible it keeps
/// by what each item is recognised and no item.
#[derive(Debug)]
pub struct SidecarState {
    pub version: u32,
    pub lane_hash: String,
    pub model: String,
    pub semantic_fingerprint: String,
    pub compact_threshold: u64,
    pub source_prefix_count: usize,
    pub source_prefix_sha256: String,
    pub last_output_match: Vec<Recognition>,
    pub compaction_item_json: String,
    pub compaction_item_sha256: String,
    pub opaque_sha256: String,
    pub raw_suffix_json: Vec<String>,
    pub raw_suffix_sha256: String,
    pub usage_input_tokens: u64,
    pub updated_at_ms: u64,
}

/// What a state holds.
#[verifier::ext_equal]
pub struct StateView {
    pub version: u32,
    pub lane_hash: Seq<char>,
    pub model: Seq<char>,
    pub semantic_fingerprint: Seq<char>,
    pub compact_threshold: u64,
    pub source_prefix_count: usize,
    pub source_prefix_sha256: Seq<char>,
    pub last_output_match: Seq<RecognitionView>,
    pub compaction_item_json: Seq<char>,
    pub compaction_item_sha256: Seq<char>,
    pub opaque_sha256: Seq<char>,
    pub raw_suffix_json: Seq<Seq<char>>,
    pub raw_suffix_sha256: Seq<char>,
    pub usage_input_tokens: u64,
    pub updated_at_ms: u64,
}

impl View for SidecarState {
    type V = StateView;

    open spec fn view(&self) -> StateView {
        StateView {
            version: self.version,
            lane_hash: self.lane_hash@,
            model: self.model@,
            semantic_fingerprint: self.semantic_fingerprint@,
            compact_threshold: self.compact_threshold,
            source_prefix_count: self.source_prefix_count,
            source_prefix_sha256: self.source_prefix_sha256@,
            last_output_match: recognition::views(self.last_output_match@),
            compaction_item_json: self.compaction_item_json@,
            compaction_item_sha256: self.compaction_item_sha256@,
            opaque_sha256: self.opaque_sha256@,
            raw_suffix_json: text::texts(self.raw_suffix_json@),
            raw_suffix_sha256: self.raw_suffix_sha256@,
            usage_input_tokens: self.usage_input_tokens,
            updated_at_ms: self.updated_at_ms,
        }
    }
}

/// What an optional state holds.
pub open spec fn optional_state(state: Option<SidecarState>) -> Option<StateView> {
    match state {
        Some(state) => Some(state@),
        None => None,
    }
}

/// Appends copies of `additions` to `strings`.
pub fn append_texts(strings: &mut Vec<String>, additions: &Vec<String>)
    ensures
        text::texts(final(strings)@) == text::texts(old(strings)@) + text::texts(additions@),
{
    broadcast use text::lemma_texts_push;

    let ghost before = text::texts(strings@);
    let ghost held = text::texts(additions@);
    let mut i: usize = 0;
    assert(before + held.take(0) =~= before);
    while i < additions.len()
        invariant
            i <= additions@.len(),
            held == text::texts(additions@),
            text::texts(strings@) == before + held.take(i as int),
        decreases additions@.len() - i,
    {
        strings.push(additions[i].clone());
        i = i + 1;
        assert(before + held.take(i as int) =~= (before + held.take(i - 1)).push(
            additions@[i - 1]@,
        ));
    }
    assert(held.take(i as int) =~= held);
}

/// Copies of recognitions.
fn copied_recognitions(recognitions: &Vec<Recognition>) -> (copies: Vec<Recognition>)
    ensures
        recognition::views(copies@) == recognition::views(recognitions@),
{
    broadcast use recognition::lemma_views_push;

    let ghost held = recognition::views(recognitions@);
    let mut copies: Vec<Recognition> = Vec::new();
    let mut i: usize = 0;
    while i < recognitions.len()
        invariant
            i <= recognitions@.len(),
            held == recognition::views(recognitions@),
            recognition::views(copies@) == held.take(i as int),
        decreases recognitions@.len() - i,
    {
        copies.push(recognitions[i].clone());
        i = i + 1;
        assert(held.take(i as int) =~= held.take(i - 1).push(recognitions@[i - 1]@));
    }
    assert(held.take(i as int) =~= held);
    copies
}

impl Clone for SidecarState {
    fn clone(&self) -> (copy: Self)
        ensures
            copy@ == self@,
    {
        let mut suffix: Vec<String> = Vec::new();
        append_texts(&mut suffix, &self.raw_suffix_json);
        assert(text::texts(suffix@) =~= text::texts(self.raw_suffix_json@));
        SidecarState {
            version: self.version,
            lane_hash: self.lane_hash.clone(),
            model: self.model.clone(),
            semantic_fingerprint: self.semantic_fingerprint.clone(),
            compact_threshold: self.compact_threshold,
            source_prefix_count: self.source_prefix_count,
            source_prefix_sha256: self.source_prefix_sha256.clone(),
            last_output_match: copied_recognitions(&self.last_output_match),
            compaction_item_json: self.compaction_item_json.clone(),
            compaction_item_sha256: self.compaction_item_sha256.clone(),
            opaque_sha256: self.opaque_sha256.clone(),
            raw_suffix_json: suffix,
            raw_suffix_sha256: self.raw_suffix_sha256.clone(),
            usage_input_tokens: self.usage_input_tokens,
            updated_at_ms: self.updated_at_ms,
        }
    }
}

/// Whether a member is a text.
pub open spec fn has_text(item: JsonTree, key: Seq<char>) -> bool {
    item.text_at(key) is Some
}

/// Whether an item has what its type demands. Items of other types are kept as they are.
pub open spec fn is_complete(item: JsonTree) -> bool {
    if transcript::is_kind(item, "message"@) {
        has_text(item, "role"@) && (item.get("content"@) matches Some(JsonTree::Array(_)))
    } else if transcript::is_kind(item, "function_call"@) {
        has_text(item, "call_id"@) && has_text(item, "name"@) && has_text(item, "arguments"@)
    } else if transcript::is_kind(item, "reasoning"@) {
        has_text(item, "id"@) && has_text(item, "encrypted_content"@)
    } else {
        true
    }
}

/// Why an item cannot be replayed.
pub open spec fn replay_fault(item: JsonTree) -> Option<Seq<char>> {
    if transcript::item_kind(item) is None {
        Some("stored output item has no type"@)
    } else if !is_complete(item) {
        Some("stored known output item is incomplete"@)
    } else {
        None
    }
}

/// Why a fragment cannot stand behind the compaction item.
pub open spec fn fragment_fault(fragment: Seq<char>) -> Option<Seq<char>> {
    match parsing::parsed(fragment) {
        None => Some("stored output item is not JSON"@),
        Some(item) => if transcript::is_kind(item, "compaction"@) {
            Some("stored suffix contains an extra compaction item"@)
        } else {
            replay_fault(item)
        },
    }
}

/// Why the first fragment that cannot stand there cannot.
pub open spec fn first_fragment_fault(fragments: Seq<Seq<char>>) -> Option<Seq<char>>
    decreases fragments.len(),
{
    if fragments.len() == 0 {
        None
    } else {
        match fragment_fault(fragments[0]) {
            Some(fault) => Some(fault),
            None => first_fragment_fault(fragments.drop_first()),
        }
    }
}

/// Where no fragment has a fault, each is a complete item and none is a compaction.
pub proof fn lemma_fragments_are_sound(fragments: Seq<Seq<char>>, i: int)
    requires
        first_fragment_fault(fragments) is None,
        0 <= i < fragments.len(),
    ensures
        fragment_fault(fragments[i]) is None,
    decreases fragments.len(),
{
    if i > 0 {
        assert(fragments.drop_first()[i - 1] == fragments[i]);
        lemma_fragments_are_sound(fragments.drop_first(), i - 1);
    }
}

/// Whether each fragment is one JSON value.
pub open spec fn all_raw(fragments: Seq<Seq<char>>) -> bool {
    forall|i: int| 0 <= i < fragments.len() ==> parsing::raw_accepted(#[trigger] fragments[i])
}

/// Whether each fragment is one that is read as a value, or is the encoding of one.
pub open spec fn all_sound(fragments: Seq<Seq<char>>) -> bool {
    forall|i: int|
        0 <= i < fragments.len() ==> parsing::parsed(#[trigger] fragments[i]) is Some
            || parsing::is_encoding(fragments[i])
}

/// The opaque payload of a compaction item.
pub open spec fn opaque_of(item: JsonTree) -> Option<Seq<char>> {
    match item.text_at("encrypted_content"@) {
        Some(opaque) => if opaque.len() > 0 {
            Some(opaque)
        } else {
            None
        },
        None => None,
    }
}

/// Why the compaction item of a state is not valid.
pub open spec fn compaction_fault(state: StateView) -> Option<Seq<char>> {
    match parsing::parsed(state.compaction_item_json) {
        None => Some("stored compaction item is not valid JSON"@),
        Some(item) => if !transcript::is_kind(item, "compaction"@) {
            Some("stored item is not a compaction item"@)
        } else {
            match opaque_of(item) {
                None => Some("stored compaction item has no opaque payload"@),
                Some(opaque) => if digest::text_fingerprint(state.compaction_item_json)
                    != state.compaction_item_sha256 || digest::text_fingerprint(opaque)
                    != state.opaque_sha256 {
                    Some("stored compaction hashes do not match"@)
                } else {
                    None
                },
            }
        },
    }
}

/// Why a state is not valid.
pub open spec fn state_fault(state: StateView) -> Option<Seq<char>> {
    if state.version != SIDECAR_VERSION {
        Some("unsupported sidecar version"@)
    } else if compaction_fault(state) is Some {
        compaction_fault(state)
    } else if !all_raw(state.raw_suffix_json) {
        Some("stored output item is not JSON"@)
    } else if first_fragment_fault(state.raw_suffix_json) is Some {
        first_fragment_fault(state.raw_suffix_json)
    } else if digest::fragments_fingerprint(state.raw_suffix_json) != state.raw_suffix_sha256 {
        Some("stored suffix hash does not match"@)
    } else {
        None
    }
}

/// Checks that each fragment is one JSON value.
pub fn validate_raw_fragments(items: &Vec<String>) -> (result: Result<(), InlineCompactionError>)
    ensures
        result is Ok <==> all_raw(text::texts(items@)),
        all_sound(text::texts(items@)) ==> result is Ok,
        result matches Err(error) ==> error.is_invalid_state("stored output item is not JSON"@),
{
    let ghost held = text::texts(items@);
    let mut i: usize = 0;
    while i < items.len()
        invariant
            i <= items@.len(),
            held == text::texts(items@),
            forall|j: int| 0 <= j < i ==> parsing::raw_accepted(#[trigger] held[j]),
        decreases items@.len() - i,
    {
        if !is_raw_json(items[i].as_str()) {
            assert(!parsing::raw_accepted(held[i as int]));
            assert(parsing::parsed(held[i as int]) is None && !parsing::is_encoding(
                held[i as int],
            ));
            return Err(InlineCompactionError::InvalidState("stored output item is not JSON"));
        }
        i = i + 1;
    }
    Ok(())
}

/// Checks that an item can be replayed.
pub fn validate_replayable_output_item(item: &Json) -> (result: Result<(), InlineCompactionError>)
    ensures
        match result {
            Ok(_) => replay_fault(item@) is None,
            Err(error) => replay_fault(item@) matches Some(fault) && error.is_invalid_state(fault),
        },
{
    broadcast use json::lemma_array_view;

    if item.text_at("type").is_none() {
        return Err(InlineCompactionError::InvalidState("stored output item has no type"));
    }
    let valid = if item.text_at_is("type", "message") {
        item.text_at("role").is_some() && match item.get("content") {
            Some(Json::Array(_)) => true,
            _ => false,
        }
    } else if item.text_at_is("type", "function_call") {
        item.text_at("call_id").is_some() && item.text_at("name").is_some() && item.text_at(
            "arguments",
        ).is_some()
    } else if item.text_at_is("type", "reasoning") {
        item.text_at("id").is_some() && item.text_at("encrypted_content").is_some()
    } else {
        true
    };
    if valid {
        Ok(())
    } else {
        Err(InlineCompactionError::InvalidState("stored known output item is incomplete"))
    }
}

/// The opaque payload of a compaction item.
pub fn opaque_payload(item: &Json) -> (opaque: Option<String>)
    ensures
        text::optional_text(opaque) == opaque_of(item@),
{
    match item.text_at("encrypted_content") {
        Some(opaque) => if opaque.is_empty() {
            None
        } else {
            Some(opaque.to_owned())
        },
        None => None,
    }
}

/// Checks the compaction item of a state.
fn validate_compaction(state: &SidecarState) -> (result: Result<(), InlineCompactionError>)
    ensures
        match result {
            Ok(_) => compaction_fault(state@) is None,
            Err(error) => compaction_fault(state@) matches Some(fault) && error.is_invalid_state(
                fault,
            ),
        },
{
    let compaction = match parse_json(state.compaction_item_json.as_str()) {
        Some(compaction) => compaction,
        None => {
            return Err(
                InlineCompactionError::InvalidState("stored compaction item is not valid JSON"),
            );
        },
    };
    if !compaction.text_at_is("type", "compaction") {
        return Err(InlineCompactionError::InvalidState("stored item is not a compaction item"));
    }
    let opaque = match opaque_payload(&compaction) {
        Some(opaque) => opaque,
        None => {
            return Err(
                InlineCompactionError::InvalidState("stored compaction item has no opaque payload"),
            );
        },
    };
    let item_hash = hash_text(state.compaction_item_json.as_str());
    let opaque_hash = hash_text(opaque.as_str());
    if !same_text(item_hash.as_str(), state.compaction_item_sha256.as_str()) || !same_text(
        opaque_hash.as_str(),
        state.opaque_sha256.as_str(),
    ) {
        return Err(InlineCompactionError::InvalidState("stored compaction hashes do not match"));
    }
    Ok(())
}

/// Checks each fragment behind the compaction item.
fn validate_suffix(items: &Vec<String>) -> (result: Result<(), InlineCompactionError>)
    ensures
        match result {
            Ok(_) => first_fragment_fault(text::texts(items@)) is None,
            Err(error) => first_fragment_fault(text::texts(items@)) matches Some(fault)
                && error.is_invalid_state(fault),
        },
{
    let ghost held = text::texts(items@);
    let mut i: usize = 0;
    assert(held.skip(0) =~= held);
    while i < items.len()
        invariant
            i <= items@.len(),
            held == text::texts(items@),
            first_fragment_fault(held) == first_fragment_fault(held.skip(i as int)),
        decreases items@.len() - i,
    {
        assert(held.skip(i as int)[0] == items@[i as int]@);
        assert(held.skip(i as int).drop_first() =~= held.skip(i + 1));
        let item = match parse_json(items[i].as_str()) {
            Some(item) => item,
            None => {
                return Err(InlineCompactionError::InvalidState("stored output item is not JSON"));
            },
        };
        if item.text_at_is("type", "compaction") {
            return Err(
                InlineCompactionError::InvalidState(
                    "stored suffix contains an extra compaction item",
                ),
            );
        }
        match validate_replayable_output_item(&item) {
            Ok(_) => {},
            Err(error) => {
                return Err(error);
            },
        }
        i = i + 1;
    }
    Ok(())
}

/// Checks a state.
pub fn validate_state(state: &SidecarState) -> (result: Result<(), InlineCompactionError>)
    ensures
        match result {
            Ok(_) => state_fault(state@) is None,
            Err(error) => state_fault(state@) matches Some(fault) && error.is_invalid_state(fault),
        },
{
    if state.version != SIDECAR_VERSION {
        return Err(InlineCompactionError::InvalidState("unsupported sidecar version"));
    }
    match validate_compaction(state) {
        Ok(_) => {},
        Err(error) => {
            return Err(error);
        },
    }
    match validate_raw_fragments(&state.raw_suffix_json) {
        Ok(_) => {},
        Err(error) => {
            return Err(error);
        },
    }
    match validate_suffix(&state.raw_suffix_json) {
        Ok(_) => {},
        Err(error) => {
            return Err(error);
        },
    }
    let hash = hash_raw_fragments(&state.raw_suffix_json);
    if !same_text(hash.as_str(), state.raw_suffix_sha256.as_str()) {
        return Err(InlineCompactionError::InvalidState("stored suffix hash does not match"));
    }
    Ok(())
}

/// An optional text as a JSON value.
pub open spec fn optional_tree(text: Option<Seq<char>>) -> JsonTree {
    match text {
        Some(text) => JsonTree::Text(text),
        None => JsonTree::Null,
    }
}

/// A recognition as a JSON value.
pub open spec fn recognition_tree(recognition: RecognitionView) -> JsonTree {
    JsonTree::Object(
        seq![
            json::member("kind"@, optional_tree(recognition.kind)),
            json::member("sha256"@, optional_tree(recognition.sha256)),
        ],
    )
}

/// Recognitions as JSON values.
pub open spec fn recognition_trees(recognitions: Seq<RecognitionView>) -> Seq<JsonTree> {
    Seq::new(recognitions.len(), |i: int| recognition_tree(recognitions[i]))
}

/// A state as a JSON value.
pub open spec fn state_tree(state: StateView) -> JsonTree {
    JsonTree::Object(
        seq![
            json::member("version"@, request::number_tree(state.version as u64)),
            json::member("lane_hash"@, JsonTree::Text(state.lane_hash)),
            json::member("model"@, JsonTree::Text(state.model)),
            json::member("semantic_fingerprint"@, JsonTree::Text(state.semantic_fingerprint)),
            json::member("compact_threshold"@, request::number_tree(state.compact_threshold)),
            json::member(
                "source_prefix_count"@,
                request::number_tree(state.source_prefix_count as u64),
            ),
            json::member("source_prefix_sha256"@, JsonTree::Text(state.source_prefix_sha256)),
            json::member(
                "last_output_match"@,
                JsonTree::Array(recognition_trees(state.last_output_match)),
            ),
            json::member("compaction_item_json"@, JsonTree::Text(state.compaction_item_json)),
            json::member("compaction_item_sha256"@, JsonTree::Text(state.compaction_item_sha256)),
            json::member("opaque_sha256"@, JsonTree::Text(state.opaque_sha256)),
            json::member("raw_suffix_json"@, JsonTree::Array(quoted_texts(state.raw_suffix_json))),
            json::member("raw_suffix_sha256"@, JsonTree::Text(state.raw_suffix_sha256)),
            json::member("usage_input_tokens"@, request::number_tree(state.usage_input_tokens)),
            json::member("updated_at_ms"@, request::number_tree(state.updated_at_ms)),
        ],
    )
}

/// Texts as JSON values.
pub open spec fn quoted_texts(texts: Seq<Seq<char>>) -> Seq<JsonTree> {
    Seq::new(texts.len(), |i: int| JsonTree::Text(texts[i]))
}

/// The checksum of a state.
pub open spec fn state_checksum(state: StateView) -> Seq<char> {
    digest::text_fingerprint(encoding::encoded(state_tree(state)))
}

/// A state with its checksum as a JSON value.
pub open spec fn envelope_tree(state: StateView) -> JsonTree {
    JsonTree::Object(
        seq![
            json::member("state"@, state_tree(state)),
            json::member("state_sha256"@, JsonTree::Text(state_checksum(state))),
        ],
    )
}

/// The text of a sidecar: the state and its checksum.
pub open spec fn sealed(state: StateView) -> Seq<char> {
    encoding::encoded(envelope_tree(state))
}

/// An optional text as a JSON value.
fn optional_value(text: &Option<String>) -> (value: Json)
    ensures
        value@ == optional_tree(text::optional_text(*text)),
{
    match text {
        Some(text) => Json::Text(text.clone()),
        None => Json::Null,
    }
}

/// A recognition as a JSON value.
fn recognition_value(recognition: &Recognition) -> (value: Json)
    ensures
        value@ == recognition_tree(recognition@),
{
    broadcast use json::lemma_object_view;

    let mut members: Vec<Member> = Vec::new();
    push_member(&mut members, "kind", optional_value(&recognition.kind));
    push_member(&mut members, "sha256", optional_value(&recognition.sha256));
    assert(json::member_trees(members@) =~= recognition_tree(recognition@)->Object_0);
    Json::Object(members)
}

/// Recognitions as JSON values.
fn recognition_values(recognitions: &Vec<Recognition>) -> (values: Vec<Json>)
    ensures
        json::trees(values@) == recognition_trees(recognition::views(recognitions@)),
{
    broadcast use json::lemma_trees_push;

    let ghost held = recognition_trees(recognition::views(recognitions@));
    let mut values: Vec<Json> = Vec::new();
    let mut i: usize = 0;
    while i < recognitions.len()
        invariant
            i <= recognitions@.len(),
            held == recognition_trees(recognition::views(recognitions@)),
            json::trees(values@) == held.take(i as int),
        decreases recognitions@.len() - i,
    {
        values.push(recognition_value(&recognitions[i]));
        i = i + 1;
        assert(held.take(i as int) =~= held.take(i - 1).push(held[i - 1]));
    }
    assert(held.take(i as int) =~= held);
    values
}

/// The number `n` as a JSON value.
fn number_value(n: u64) -> (value: Json)
    ensures
        value@ == request::number_tree(n),
{
    Json::Number { text: to_decimal(n), unsigned: Some(n) }
}

impl SidecarState {
    /// The state as a JSON value.
    pub fn to_json(&self) -> (value: Json)
        ensures
            value@ == state_tree(self@),
    {
        broadcast use {json::lemma_object_view, json::lemma_array_view};

        let mut members: Vec<Member> = Vec::new();
        push_member(&mut members, "version", number_value(self.version as u64));
        push_text(&mut members, "lane_hash", self.lane_hash.as_str());
        push_text(&mut members, "model", self.model.as_str());
        push_text(&mut members, "semantic_fingerprint", self.semantic_fingerprint.as_str());
        push_member(&mut members, "compact_threshold", number_value(self.compact_threshold));
        push_member(
            &mut members,
            "source_prefix_count",
            number_value(self.source_prefix_count as u64),
        );
        push_text(&mut members, "source_prefix_sha256", self.source_prefix_sha256.as_str());
        push_member(
            &mut members,
            "last_output_match",
            Json::Array(recognition_values(&self.last_output_match)),
        );
        push_text(&mut members, "compaction_item_json", self.compaction_item_json.as_str());
        push_text(&mut members, "compaction_item_sha256", self.compaction_item_sha256.as_str());
        push_text(&mut members, "opaque_sha256", self.opaque_sha256.as_str());
        assert(json::text_trees(self.raw_suffix_json@) =~= quoted_texts(
            text::texts(self.raw_suffix_json@),
        ));
        push_member(
            &mut members,
            "raw_suffix_json",
            Json::Array(text_values(&self.raw_suffix_json)),
        );
        push_text(&mut members, "raw_suffix_sha256", self.raw_suffix_sha256.as_str());
        push_member(&mut members, "usage_input_tokens", number_value(self.usage_input_tokens));
        push_member(&mut members, "updated_at_ms", number_value(self.updated_at_ms));
        assert(json::member_trees(members@) =~= state_tree(self@)->Object_0);
        Json::Object(members)
    }

    /// The checksum of the state.
    pub fn checksum(&self) -> (hash: String)
        ensures
            hash@ == state_checksum(self@),
    {
        hash_text(encode_json(&self.to_json()).as_str())
    }
}

/// The text of the sidecar for `state`, where it is not too large.
pub fn seal_state(state: &SidecarState) -> (result: Result<String, InlineCompactionError>)
    ensures
        match result {
            Ok(text) => text@ == sealed(state@) && vstd::utf8::encode_utf8(sealed(state@)).len()
                <= MAX_STATE_BYTES,
            Err(error) => vstd::utf8::encode_utf8(sealed(state@)).len() > MAX_STATE_BYTES
                && error.is_invalid_state("sidecar exceeds the size limit"@),
        },
{
    broadcast use json::lemma_object_view;

    let mut members: Vec<Member> = Vec::new();
    push_member(&mut members, "state", state.to_json());
    push_member(&mut members, "state_sha256", Json::Text(state.checksum()));
    assert(json::member_trees(members@) =~= envelope_tree(state@)->Object_0);
    let text = encode_json(&Json::Object(members));
    if text.as_str().as_bytes().len() as u64 > MAX_STATE_BYTES {
        Err(InlineCompactionError::InvalidState("sidecar exceeds the size limit"))
    } else {
        Ok(text)
    }
}

/// What is known of a file without reading it: whether it is a regular file and no link, its
/// length, and its mode where files have one.
#[derive(Debug, Clone, Copy)]
pub struct FileFacts {
    pub regular: bool,
    pub length: u64,
    pub mode: Option<u32>,
}

/// Whether the permission bits of a mode, where there is one, are `wanted`.
pub open spec fn permits(mode: Option<u32>, wanted: u32) -> bool {
    mode matches Some(mode) ==> mode & 0o777 == wanted
}

/// Why a file cannot be read as a sidecar.
pub open spec fn file_fault(file: FileFacts) -> Option<Seq<char>> {
    if !file.regular {
        Some("sidecar is not a regular file"@)
    } else if file.length > MAX_STATE_BYTES {
        Some("sidecar exceeds the size limit"@)
    } else if !permits(file.mode, 0o600) {
        Some("sidecar permissions are not 0600"@)
    } else {
        None
    }
}

/// Whether the permission bits of a mode, where there is one, are `wanted`.
pub fn has_permissions(mode: Option<u32>, wanted: u32) -> (result: bool)
    ensures
        result == permits(mode, wanted),
{
    match mode {
        Some(mode) => mode & 0o777 == wanted,
        None => true,
    }
}

impl FileFacts {
    /// Whether a file can be read as a sidecar.
    pub fn is_readable(&self) -> (readable: bool)
        ensures
            readable == (file_fault(*self) is None),
    {
        self.regular && self.length <= MAX_STATE_BYTES && has_permissions(self.mode, 0o600)
    }
}

/// Decides on a sidecar by what its inspection found: `false` where there is none, `true` where it
/// can be read.
pub fn inspect_sidecar(found: Result<FileFacts, IoFailure>) -> (result: Result<
    bool,
    InlineCompactionError,
>)
    ensures
        match found {
            Err(failure) => if failure.kind == IoKind::NotFound {
                result == Ok::<bool, InlineCompactionError>(false)
            } else {
                result matches Err(error) && error.is_io("inspecting sidecar"@, failure)
            },
            Ok(file) => match file_fault(file) {
                Some(fault) => result matches Err(error) && error.is_invalid_state(fault),
                None => result == Ok::<bool, InlineCompactionError>(true),
            },
        },
{
    let file = match found {
        Ok(file) => file,
        Err(source) => {
            if source.kind == IoKind::NotFound {
                return Ok(false);
            }
            return Err(InlineCompactionError::Io { operation: "inspecting sidecar", source });
        },
    };
    if !file.regular {
        return Err(InlineCompactionError::InvalidState("sidecar is not a regular file"));
    }
    if file.length > MAX_STATE_BYTES {
        return Err(InlineCompactionError::InvalidState("sidecar exceeds the size limit"));
    }
    if !has_permissions(file.mode, 0o600) {
        return Err(InlineCompactionError::InvalidState("sidecar permissions are not 0600"));
    }
    Ok(true)
}

/// A sidecar as it was read: the state and the checksum that stands beside it.
#[derive(Debug)]
pub struct SidecarEnvelope {
    pub state: SidecarState,
    pub state_sha256: String,
}

/// What a sidecar that was read holds.
#[verifier::ext_equal]
pub struct EnvelopeView {
    pub state: StateView,
    pub state_sha256: Seq<char>,
}

impl View for SidecarEnvelope {
    type V = EnvelopeView;

    open spec fn view(&self) -> EnvelopeView {
        EnvelopeView { state: self.state@, state_sha256: self.state_sha256@ }
    }
}

/// What an optional sidecar holds.
pub open spec fn optional_envelope(envelope: Option<SidecarEnvelope>) -> Option<EnvelopeView> {
    match envelope {
        Some(envelope) => Some(envelope@),
        None => None,
    }
}

/// Why a sidecar that was read, or could not be read as one, is refused.
pub open spec fn envelope_fault(envelope: Option<EnvelopeView>) -> Option<Seq<char>> {
    match envelope {
        None => Some("sidecar JSON is corrupt"@),
        Some(envelope) => if state_checksum(envelope.state) != envelope.state_sha256 {
            Some("sidecar checksum mismatch"@)
        } else {
            state_fault(envelope.state)
        },
    }
}

/// The state of a sidecar that was read, where its checksum and the state itself are valid. `None`
/// stands for contents that are no sidecar.
pub fn open_sidecar(envelope: Option<SidecarEnvelope>) -> (result: Result<
    SidecarState,
    InlineCompactionError,
>)
    ensures
        match result {
            Ok(state) => envelope_fault(optional_envelope(envelope)) is None && state
                == envelope->0.state,
            Err(error) => envelope_fault(optional_envelope(envelope)) matches Some(fault)
                && error.is_invalid_state(fault),
        },
{
    let envelope = match envelope {
        Some(envelope) => envelope,
        None => {
            return Err(InlineCompactionError::InvalidState("sidecar JSON is corrupt"));
        },
    };
    let hash = envelope.state.checksum();
    if !same_text(hash.as_str(), envelope.state_sha256.as_str()) {
        return Err(InlineCompactionError::InvalidState("sidecar checksum mismatch"));
    }
    match validate_state(&envelope.state) {
        Ok(_) => Ok(envelope.state),
        Err(error) => Err(error),
    }
}

/// What a fragment is to be to stand behind a compaction item: a JSON value with a type other than
/// that of a compaction, and with what its type demands. A message has a role and a list of parts; a
/// function call an identifier, a name and arguments; reasoning an identifier and its encrypted
/// content. An item of any other type may hold whatever it does.
pub open spec fn can_be_replayed(fragment: Seq<char>) -> bool {
    &&& parsing::parsed(fragment) matches Some(item)
    &&& item.text_at("type"@) matches Some(kind)
    &&& kind != "compaction"@
    &&& kind == "message"@ ==> item.text_at("role"@) is Some && (item.get("content"@) matches Some(
        JsonTree::Array(_),
    ))
    &&& kind == "function_call"@ ==> item.text_at("call_id"@) is Some && item.text_at(
        "name"@,
    ) is Some && item.text_at("arguments"@) is Some
    &&& kind == "reasoning"@ ==> item.text_at("id"@) is Some && item.text_at(
        "encrypted_content"@,
    ) is Some
}

/// The types of items that something is demanded of are different texts.
proof fn lemma_kinds_differ()
    ensures
        "message"@ != "function_call"@,
        "message"@ != "reasoning"@,
        "function_call"@ != "reasoning"@,
        "compaction"@ != "message"@,
        "compaction"@ != "function_call"@,
        "compaction"@ != "reasoning"@,
{
    reveal_strlit("message");
    reveal_strlit("function_call");
    reveal_strlit("reasoning");
    reveal_strlit("compaction");
    assert("message"@.len() == 7 && "function_call"@.len() == 13 && "reasoning"@.len() == 9);
    assert("compaction"@.len() == 10);
}

/// A fragment has no fault just where it can be replayed.
pub proof fn law_fragments_are_complete_items(fragment: Seq<char>)
    ensures
        fragment_fault(fragment) is None <==> can_be_replayed(fragment),
{
    lemma_kinds_differ();
}

/// No fragment has a fault just where each can be replayed.
proof fn lemma_all_can_be_replayed(fragments: Seq<Seq<char>>)
    ensures
        first_fragment_fault(fragments) is None <==> forall|i: int|
            0 <= i < fragments.len() ==> can_be_replayed(#[trigger] fragments[i]),
    decreases fragments.len(),
{
    if fragments.len() > 0 {
        let rest = fragments.drop_first();
        law_fragments_are_complete_items(fragments[0]);
        lemma_all_can_be_replayed(rest);
        if first_fragment_fault(fragments) is None {
            assert forall|i: int| 0 <= i < fragments.len() implies can_be_replayed(
                #[trigger] fragments[i],
            ) by {
                if i > 0 {
                    assert(rest[i - 1] == fragments[i]);
                }
            }
        }
        if forall|i: int| 0 <= i < fragments.len() ==> can_be_replayed(#[trigger] fragments[i]) {
            assert forall|i: int| 0 <= i < rest.len() implies can_be_replayed(
                #[trigger] rest[i],
            ) by {
                assert(rest[i] == fragments[i + 1]);
            }
        }
    }
}

/// A state is valid just where it has the first version; its compaction item is a JSON value of that
/// type with a payload that is not empty, and the digests of both are those that it tells; each of
/// its fragments is raw JSON and can be replayed; and the digest of the fragments is the one that it
/// tells.
pub proof fn law_valid_states(state: StateView)
    ensures
        state_fault(state) is None <==> {
            &&& state.version == 1
            &&& parsing::parsed(state.compaction_item_json) matches Some(item)
            &&& item.text_at("type"@) == Some("compaction"@)
            &&& item.text_at("encrypted_content"@) matches Some(opaque)
            &&& opaque.len() > 0
            &&& state.compaction_item_sha256 == digest::text_fingerprint(
                state.compaction_item_json,
            )
            &&& state.opaque_sha256 == digest::text_fingerprint(opaque)
            &&& forall|i: int|
                0 <= i < state.raw_suffix_json.len() ==> parsing::raw_accepted(
                    #[trigger] state.raw_suffix_json[i],
                ) && can_be_replayed(state.raw_suffix_json[i])
            &&& state.raw_suffix_sha256 == digest::fragments_fingerprint(state.raw_suffix_json)
        },
{
    let suffix = state.raw_suffix_json;
    lemma_all_can_be_replayed(suffix);
    if state_fault(state) is None {
        assert forall|i: int| 0 <= i < suffix.len() implies parsing::raw_accepted(
            #[trigger] suffix[i],
        ) && can_be_replayed(suffix[i]) by {}
    }
    if forall|i: int|
        0 <= i < suffix.len() ==> parsing::raw_accepted(#[trigger] suffix[i]) && can_be_replayed(
            suffix[i],
        ) {
        assert(all_raw(suffix));
    }
}

/// A sidecar that was read is accepted just where the checksum beside its state is that of the
/// encoding of the state and the state is valid.
pub proof fn law_accepted_sidecars_agree_with_their_checksum(envelope: EnvelopeView)
    ensures
        envelope_fault(Some(envelope)) is None <==> envelope.state_sha256
            == digest::text_fingerprint(encoding::encoded(state_tree(envelope.state)))
            && state_fault(envelope.state) is None,
        envelope_fault(None) == Some("sidecar JSON is corrupt"@),
        envelope.state_sha256 != digest::text_fingerprint(
            encoding::encoded(state_tree(envelope.state)),
        ) ==> envelope_fault(Some(envelope)) == Some("sidecar checksum mismatch"@),
{
}

/// A file can be read as a sidecar just where it is a regular file of at most 64 MiB that, where
/// files have modes, is readable and writable for its owner alone.
pub proof fn law_sidecar_files_are_private_and_bounded(file: FileFacts)
    ensures
        file_fault(file) is None <==> file.regular && file.length <= 64 * 1024 * 1024 && (
        file.mode matches Some(mode) ==> mode & 0o777 == 0o600),
{
}

/// A sidecar is written with its state and the checksum of the encoding of the state, and nothing
/// else.
pub proof fn law_sealed_sidecars_hold_state_and_checksum(state: StateView)
    ensures
        ({
            let tree = envelope_tree(state);
            &&& sealed(state) == encoding::encoded(tree)
            &&& tree is Object && tree->Object_0.len() == 2
            &&& tree.get("state"@) == Some(state_tree(state))
            &&& tree.get("state_sha256"@) == Some(
                JsonTree::Text(digest::text_fingerprint(encoding::encoded(state_tree(state)))),
            )
        }),
{
    reveal_strlit("state");
    reveal_strlit("state_sha256");
    assert("state"@.len() == 5 && "state_sha256"@.len() == 12);
    reveal_with_fuel(json::lookup, 3);
    let members = envelope_tree(state)->Object_0;
    assert(members.drop_last().last() == members[0]);
}

/// A state is written with each of its fifteen fields under its name, and nothing else; of the
/// output that was visible it holds the type and a digest of each item.
pub proof fn law_states_are_written_field_by_field(state: StateView)
    ensures
        ({
            let tree = state_tree(state);
            &&& tree is Object && tree->Object_0.len() == 15
            &&& tree.get("version"@) == Some(request::number_tree(state.version as u64))
            &&& tree.get("lane_hash"@) == Some(JsonTree::Text(state.lane_hash))
            &&& tree.get("model"@) == Some(JsonTree::Text(state.model))
            &&& tree.get("semantic_fingerprint"@) == Some(
                JsonTree::Text(state.semantic_fingerprint),
            )
            &&& tree.get("compact_threshold"@) == Some(
                request::number_tree(state.compact_threshold),
            )
            &&& tree.get("source_prefix_count"@) == Some(
                request::number_tree(state.source_prefix_count as u64),
            )
            &&& tree.get("source_prefix_sha256"@) == Some(
                JsonTree::Text(state.source_prefix_sha256),
            )
            &&& tree.get("compaction_item_json"@) == Some(
                JsonTree::Text(state.compaction_item_json),
            )
            &&& tree.get("compaction_item_sha256"@) == Some(
                JsonTree::Text(state.compaction_item_sha256),
            )
            &&& tree.get("opaque_sha256"@) == Some(JsonTree::Text(state.opaque_sha256))
            &&& tree.get("raw_suffix_sha256"@) == Some(JsonTree::Text(state.raw_suffix_sha256))
            &&& tree.get("usage_input_tokens"@) == Some(
                request::number_tree(state.usage_input_tokens),
            )
            &&& tree.get("updated_at_ms"@) == Some(request::number_tree(state.updated_at_ms))
            &&& tree.get("raw_suffix_json"@) matches Some(JsonTree::Array(fragments))
            &&& fragments.len() == state.raw_suffix_json.len()
            &&& forall|i: int|
                0 <= i < fragments.len() ==> #[trigger] fragments[i] == JsonTree::Text(
                    state.raw_suffix_json[i],
                )
            &&& tree.get("last_output_match"@) matches Some(JsonTree::Array(recorded))
            &&& recorded.len() == state.last_output_match.len()
            &&& forall|i: int|
                0 <= i < recorded.len() ==> (#[trigger] recorded[i]) == recognition_tree(
                    state.last_output_match[i],
                )
        }),
{
    lemma_state_lookup(state);
}

/// What is found in the encoding of a state.
proof fn lemma_state_lookup(state: StateView)
    ensures
        forall|i: int|
            0 <= i < 15 ==> json::lookup(
                state_tree(state)->Object_0,
                (#[trigger] state_tree(state)->Object_0[i]).key,
            ) == Some(state_tree(state)->Object_0[i].value),
{
    reveal_strlit("version");
    reveal_strlit("lane_hash");
    reveal_strlit("model");
    reveal_strlit("semantic_fingerprint");
    reveal_strlit("compact_threshold");
    reveal_strlit("source_prefix_count");
    reveal_strlit("source_prefix_sha256");
    reveal_strlit("last_output_match");
    reveal_strlit("compaction_item_json");
    reveal_strlit("compaction_item_sha256");
    reveal_strlit("opaque_sha256");
    reveal_strlit("raw_suffix_json");
    reveal_strlit("raw_suffix_sha256");
    reveal_strlit("usage_input_tokens");
    reveal_strlit("updated_at_ms");
    let members = state_tree(state)->Object_0;
    assert forall|i: int, j: int| 0 <= i < j < members.len() implies (#[trigger] members[i]).key
        != (#[trigger] members[j]).key by {
        let (a, b) = (members[i].key, members[j].key);
        assert(a.len() != b.len() || a[0] != b[0] || a[1] != b[1]);
    }
    assert forall|i: int| 0 <= i < 15 implies json::lookup(
        members,
        (#[trigger] members[i]).key,
    ) == Some(members[i].value) by {
        crate::keys::lemma_lookup_distinct(members, i);
    }
}

/// What is recorded of an item is written as its type and its digest, each null where there is none.
pub proof fn law_recognitions_are_written_as_type_and_digest(recognition: RecognitionView)
    ensures
        ({
            let tree = recognition_tree(recognition);
            &&& tree is Object && tree->Object_0.len() == 2
            &&& tree.get("kind"@) == Some(
                match recognition.kind {
                    Some(kind) => JsonTree::Text(kind),
                    None => JsonTree::Null,
                },
            )
            &&& tree.get("sha256"@) == Some(
                match recognition.sha256 {
                    Some(sha256) => JsonTree::Text(sha256),
                    None => JsonTree::Null,
                },
            )
        }),
{
    reveal_strlit("kind");
    reveal_strlit("sha256");
    assert("kind"@.len() == 4 && "sha256"@.len() == 6);
    reveal_with_fuel(json::lookup, 3);
    let members = recognition_tree(recognition)->Object_0;
    assert(members.drop_last().last() == members[0]);
}

/// A file that cannot be read as a sidecar is refused for the first of what is wrong with it.
pub proof fn law_refused_files_are_named(file: FileFacts)
    ensures
        !file.regular ==> file_fault(file) == Some("sidecar is not a regular file"@),
        file.regular && file.length > 67108864 ==> file_fault(file) == Some(
            "sidecar exceeds the size limit"@,
        ),
        file.regular && file.length <= 67108864 ==> (file.mode matches Some(mode) ==> (mode & 0o777
            != 0o600 ==> file_fault(file) == Some("sidecar permissions are not 0600"@))),
{
}

/// A fragment that cannot stand behind a compaction item is refused for the first of what is wrong
/// with it: it is no JSON value, it is a compaction, it has no type, or it lacks what its type
/// demands.
pub proof fn law_refused_fragments_are_named(fragment: Seq<char>)
    ensures
        parsing::parsed(fragment) is None ==> fragment_fault(fragment) == Some(
            "stored output item is not JSON"@,
        ),
        parsing::parsed(fragment) matches Some(item) ==> {
            &&& item.text_at("type"@) == Some("compaction"@) ==> fragment_fault(fragment) == Some(
                "stored suffix contains an extra compaction item"@,
            )
            &&& item.text_at("type"@) is None ==> fragment_fault(fragment) == Some(
                "stored output item has no type"@,
            )
            &&& item.text_at("type"@) is Some && item.text_at("type"@) != Some("compaction"@)
                && !can_be_replayed(fragment) ==> fragment_fault(fragment) == Some(
                "stored known output item is incomplete"@,
            )
        },
{
    law_fragments_are_complete_items(fragment);
}

/// The first fragment that is refused is named.
proof fn lemma_first_fragment(fragments: Seq<Seq<char>>, at: int)
    requires
        0 <= at < fragments.len(),
        fragment_fault(fragments[at]) is Some,
        forall|i: int| 0 <= i < at ==> fragment_fault(#[trigger] fragments[i]) is None,
    ensures
        first_fragment_fault(fragments) == fragment_fault(fragments[at]),
    decreases at,
{
    if at > 0 {
        let rest = fragments.drop_first();
        assert(fragment_fault(fragments[0]) is None);
        assert forall|i: int| 0 <= i < at - 1 implies fragment_fault(#[trigger] rest[i]) is None by {
            assert(rest[i] == fragments[i + 1]);
        }
        assert(rest[at - 1] == fragments[at]);
        lemma_first_fragment(rest, at - 1);
    }
}

/// A state that is not valid is refused for the first of what is wrong with it: its version, its
/// compaction item, a fragment that is no JSON, a fragment that cannot stand where it does, or the
/// digest of its fragments.
pub proof fn law_refused_states_are_named(state: StateView, at: int)
    ensures
        state.version != 1 ==> state_fault(state) == Some("unsupported sidecar version"@),
        state.version == 1 ==> {
            let item = parsing::parsed(state.compaction_item_json);
            let named = item is Some && item->0.text_at("type"@) == Some("compaction"@);
            let payload = item->0.text_at("encrypted_content"@);
            let filled = named && payload is Some && payload->0.len() > 0;
            let hashed = filled && digest::text_fingerprint(state.compaction_item_json)
                == state.compaction_item_sha256 && digest::text_fingerprint(payload->0)
                == state.opaque_sha256;
            &&& item is None ==> state_fault(state) == Some(
                "stored compaction item is not valid JSON"@,
            )
            &&& item is Some && !named ==> state_fault(state) == Some(
                "stored item is not a compaction item"@,
            )
            &&& named && !filled ==> state_fault(state) == Some(
                "stored compaction item has no opaque payload"@,
            )
            &&& filled && !hashed ==> state_fault(state) == Some(
                "stored compaction hashes do not match"@,
            )
            &&& hashed && !all_raw(state.raw_suffix_json) ==> state_fault(state) == Some(
                "stored output item is not JSON"@,
            )
            &&& hashed && all_raw(state.raw_suffix_json) && 0 <= at < state.raw_suffix_json.len()
                && fragment_fault(state.raw_suffix_json[at]) is Some && (forall|i: int|
                0 <= i < at ==> fragment_fault(#[trigger] state.raw_suffix_json[i]) is None)
                ==> state_fault(state) == fragment_fault(state.raw_suffix_json[at])
            &&& hashed && all_raw(state.raw_suffix_json) && first_fragment_fault(
                state.raw_suffix_json,
            ) is None && digest::fragments_fingerprint(state.raw_suffix_json)
                != state.raw_suffix_sha256 ==> state_fault(state) == Some(
                "stored suffix hash does not match"@,
            )
        },
{
    let fragments = state.raw_suffix_json;
    if 0 <= at < fragments.len() && fragment_fault(fragments[at]) is Some && (forall|i: int|
        0 <= i < at ==> fragment_fault(#[trigger] fragments[i]) is None) {
        lemma_first_fragment(fragments, at);
    }
}

}
