//! What an upstream response stream says: its output items, in the order of their indexes, the
//! latest compaction among them, and the tokens that the response used.

use vstd::prelude::*;
use vstd::string::*;

use crate::error::InlineCompactionError;
use crate::fields::read_simple;
use crate::fields;
use crate::json::{Json, JsonTree};
use crate::json;
use crate::keys::is_key_repeated;
use crate::keys;
use crate::parsing::{parse_json, read_raw_member};
use crate::parsing;
use crate::parts::trim;
use crate::parts;
use crate::sse::parse_sse_events;
use crate::sse;
use crate::text::{chars_of, same_text};
use crate::text;
use crate::transcript;

verus! {

/// An output item: its index, its text and its value.
#[derive(Debug)]
pub struct CapturedRawItem {
    pub output_index: u64,
    pub raw: String,
    pub value: Json,
}

/// What an output item holds.
pub struct ItemView {
    pub index: u64,
    pub raw: Seq<char>,
    pub value: JsonTree,
}

impl View for CapturedRawItem {
    type V = ItemView;

    open spec fn view(&self) -> ItemView {
        ItemView { index: self.output_index, raw: self.raw@, value: self.value@ }
    }
}

/// What each output item of a sequence holds.
pub open spec fn item_views(items: Seq<CapturedRawItem>) -> Seq<ItemView> {
    Seq::new(items.len(), |i: int| items[i]@)
}

/// What an upstream response stream says.
#[derive(Debug)]
pub struct CapturedUpstream {
    pub items: Vec<CapturedRawItem>,
    pub compaction_position: Option<usize>,
    pub compaction_count: usize,
    pub last_compaction_item_index: Option<u64>,
    pub usage_input_tokens: u64,
    pub anomaly_reason: Option<&'static str>,
    pub effective_reasoning_context: Option<String>,
}

/// What one event means.
pub enum Event {
    /// No data, or the end marker.
    Nothing,
    /// Data that is no JSON value.
    NotJson,
    /// The response failed.
    Failure,
    /// An output item is done, or would be were it not for a fault.
    Item(Result<ItemView, Seq<char>>),
    /// The response is completed, with the input tokens that it used where it says so, and whether
    /// its status agrees.
    Completed { usage: Option<u64>, agrees: bool },
    /// Anything else.
    Other,
}

/// The output index of a done item: absent, or a number; `None` where it is something else.
pub open spec fn index_of(data: Seq<char>) -> Option<Option<u64>> {
    match parsing::raw_member(data, "output_index"@) {
        None => Some(None),
        Some(written) => match fields::simple(written) {
            Some(JsonTree::Null) => Some(None),
            Some(JsonTree::Number(_, Some(index))) => Some(Some(index)),
            _ => None,
        },
    }
}

/// The output item that an event brings.
pub open spec fn done_item(data: Seq<char>) -> Result<ItemView, Seq<char>> {
    match (parsing::raw_member(data, "item"@), index_of(data)) {
        (Some(raw), Some(index)) => {
            if keys::is_repeated(data, "item"@) || keys::is_repeated(data, "output_index"@) {
                Err("output_item.done is missing its raw item"@)
            } else if index is None || index->0 > usize::MAX {
                Err("output_item.done has no valid output_index"@)
            } else {
                match parsing::parsed(raw) {
                    Some(value) => Ok(ItemView { index: index->0, raw, value }),
                    None => Err("output item is not valid JSON"@),
                }
            }
        },
        _ => Err("output_item.done is missing its raw item"@),
    }
}

/// The type of an event.
pub open spec fn event_kind(payload: JsonTree) -> Seq<char> {
    match payload.text_at("type"@) {
        Some(kind) => kind,
        None => Seq::empty(),
    }
}

/// The types of the events that say that the response failed.
pub open spec fn is_failure_kind(kind: Seq<char>) -> bool {
    kind == "error"@ || kind == "response.error"@ || kind == "response.failed"@ || kind
        == "response.incomplete"@
}

/// The member `inner` of the member `outer` of the response that an event carries.
pub open spec fn in_response(payload: JsonTree, outer: Seq<char>, inner: Seq<char>) -> Option<
    JsonTree,
> {
    match payload.get("response"@) {
        Some(response) => response.get_in(outer, inner),
        None => None,
    }
}

/// The input tokens that a completed response says it used.
pub open spec fn usage_of(payload: JsonTree) -> Option<u64> {
    match in_response(payload, "usage"@, "input_tokens"@) {
        Some(value) => value.as_unsigned(),
        None => None,
    }
}

/// Whether a completed response names no other status.
pub open spec fn status_agrees(payload: JsonTree) -> bool {
    match payload.get_in("response"@, "status"@) {
        Some(JsonTree::Text(status)) => status == "completed"@,
        _ => true,
    }
}

/// What one event means.
pub open spec fn event_of(event: Seq<char>) -> Event {
    let data = parts::trimmed(event);
    if data.len() == 0 || data == "[DONE]"@ {
        Event::Nothing
    } else {
        match parsing::parsed(data) {
            None => Event::NotJson,
            Some(payload) => {
                let kind = event_kind(payload);
                if is_failure_kind(kind) {
                    Event::Failure
                } else if kind == "response.output_item.done"@ {
                    Event::Item(done_item(data))
                } else if kind == "response.completed"@ {
                    Event::Completed { usage: usage_of(payload), agrees: status_agrees(payload) }
                } else {
                    Event::Other
                }
            },
        }
    }
}

/// A name that is short and made of ASCII letters, digits, underscores and hyphens.
pub open spec fn is_short_name(text: Seq<char>) -> bool {
    0 < text.len() <= 32 && forall|i: int| 0 <= i < text.len() ==> is_name_char(#[trigger] text[i])
}

/// A character of a short name.
pub open spec fn is_name_char(c: char) -> bool {
    'a' <= c <= 'z' || 'A' <= c <= 'Z' || '0' <= c <= '9' || c == '_' || c == '-'
}

/// The reasoning context that an event names, where it is a short name.
pub open spec fn context_of(event: Seq<char>) -> Option<Seq<char>> {
    let data = parts::trimmed(event);
    if data.len() == 0 || data == "[DONE]"@ {
        None
    } else {
        match parsing::parsed(data) {
            Some(payload) => match in_response(payload, "reasoning"@, "context"@) {
                Some(JsonTree::Text(context)) => if is_short_name(context) {
                    Some(context)
                } else {
                    None
                },
                _ => None,
            },
            None => None,
        }
    }
}

/// How many events complete the response.
pub open spec fn completions(events: Seq<Seq<char>>) -> nat
    decreases events.len(),
{
    if events.len() == 0 {
        0
    } else {
        completions(events.drop_last()) + if event_of(events.last()) is Completed {
            1nat
        } else {
            0nat
        }
    }
}

/// The input tokens that the last event which completes the response says it used.
pub open spec fn last_usage(events: Seq<Seq<char>>) -> Option<u64>
    decreases events.len(),
{
    if events.len() == 0 {
        None
    } else {
        match event_of(events.last()) {
            Event::Completed { usage, .. } => usage,
            _ => last_usage(events.drop_last()),
        }
    }
}

/// The last reasoning context that is named.
pub open spec fn last_context(events: Seq<Seq<char>>) -> Option<Seq<char>>
    decreases events.len(),
{
    if events.len() == 0 {
        None
    } else {
        match context_of(events.last()) {
            Some(context) => Some(context),
            None => last_context(events.drop_last()),
        }
    }
}

/// Where an item with the index `index` goes: behind the last item with a smaller index.
pub open spec fn place(items: Seq<ItemView>, index: u64) -> int
    decreases items.len(),
{
    if items.len() == 0 || items.last().index < index {
        items.len() as int
    } else {
        place(items.drop_last(), index)
    }
}

/// The output items, by increasing index.
pub open spec fn output_items(events: Seq<Seq<char>>) -> Seq<ItemView>
    decreases events.len(),
{
    if events.len() == 0 {
        Seq::empty()
    } else {
        let items = output_items(events.drop_last());
        match event_of(events.last()) {
            Event::Item(Ok(item)) => items.insert(place(items, item.index), item),
            _ => items,
        }
    }
}

/// Whether an item has the index `index`.
pub open spec fn has_index(items: Seq<ItemView>, index: u64) -> bool {
    exists|i: int| 0 <= i < items.len() && (#[trigger] items[i]).index == index
}

/// What is wrong with the event `event` behind the events `before`. A completed response is the end
/// of a stream: no JSON payload may follow it.
pub open spec fn fault_behind(before: Seq<Seq<char>>, event: Seq<char>) -> Option<Seq<char>> {
    match event_of(event) {
        Event::NotJson => Some("SSE event data is not valid JSON"@),
        Event::Failure => Some("upstream emitted a terminal failure"@),
        Event::Item(item) => {
            if completions(before) > 0 {
                Some("output item arrived after response.completed"@)
            } else {
                match item {
                    Err(fault) => Some(fault),
                    Ok(item) => if has_index(output_items(before), item.index) {
                        Some("duplicate output_index in output_item.done"@)
                    } else {
                        None
                    },
                }
            }
        },
        Event::Completed { agrees, .. } => if agrees {
            None
        } else {
            Some("response.completed carried a non-completed status"@)
        },
        Event::Other => if completions(before) > 0 {
            Some("JSON payload arrived after response.completed"@)
        } else {
            None
        },
        Event::Nothing => None,
    }
}

/// What is wrong with the first event that is wrong.
pub open spec fn first_fault(events: Seq<Seq<char>>) -> Option<Seq<char>>
    decreases events.len(),
{
    if events.len() == 0 {
        None
    } else {
        match first_fault(events.drop_last()) {
            Some(fault) => Some(fault),
            None => fault_behind(events.drop_last(), events.last()),
        }
    }
}

/// What is wrong with a whole stream.
pub open spec fn stream_fault(events: Seq<Seq<char>>) -> Option<Seq<char>> {
    match first_fault(events) {
        Some(fault) => Some(fault),
        None => if completions(events) != 1 {
            Some("expected exactly one response.completed"@)
        } else if last_usage(events) is None {
            Some("response.completed has no input token usage"@)
        } else {
            None
        },
    }
}

/// Whether an item is a compaction.
pub open spec fn is_compaction(item: ItemView) -> bool {
    transcript::is_kind(item.value, "compaction"@)
}

/// How many items are compactions.
pub open spec fn compactions(items: Seq<ItemView>) -> nat
    decreases items.len(),
{
    if items.len() == 0 {
        0
    } else {
        compactions(items.drop_last()) + if is_compaction(items.last()) {
            1nat
        } else {
            0nat
        }
    }
}

/// Where the last compaction stands.
pub open spec fn last_compaction(items: Seq<ItemView>) -> Option<int>
    decreases items.len(),
{
    if items.len() == 0 {
        None
    } else if is_compaction(items.last()) {
        Some(items.len() - 1)
    } else {
        last_compaction(items.drop_last())
    }
}

/// The events of a stream.
pub open spec fn events_of(body: Seq<u8>) -> Seq<Seq<char>> {
    sse::event_data(sse::lossy_text(body))
}

/// Whether a response crossed the threshold and yet brought no compaction.
pub open spec fn is_anomalous(events: Seq<Seq<char>>, threshold: u64) -> bool {
    last_compaction(output_items(events)) is None && last_usage(events) is Some && last_usage(
        events,
    )->0 >= threshold
}

impl CapturedUpstream {
    /// Whether this is what the events `events` say, at the threshold `threshold`.
    pub open spec fn says(self, events: Seq<Seq<char>>, threshold: u64) -> bool {
        let items = output_items(events);
        &&& item_views(self.items@) == items
        &&& match last_compaction(items) {
            Some(position) => (self.compaction_position matches Some(p) && p == position)
                && self.last_compaction_item_index == Some(items[position].index),
            None => self.compaction_position is None && self.last_compaction_item_index is None,
        }
        &&& self.compaction_count == compactions(items)
        &&& last_usage(events) == Some(self.usage_input_tokens)
        &&& match self.anomaly_reason {
            Some(reason) => is_anomalous(events, threshold) && reason@
                == "threshold_crossed_without_compaction"@,
            None => !is_anomalous(events, threshold),
        }
        &&& text::optional_text(self.effective_reasoning_context) == last_context(events)
    }
}

/// A fault in the first events is the fault of all events.
proof fn lemma_fault_stays(events: Seq<Seq<char>>, count: int)
    requires
        0 <= count <= events.len(),
        first_fault(events.take(count)) is Some,
    ensures
        first_fault(events) == first_fault(events.take(count)),
    decreases events.len(),
{
    if count < events.len() {
        assert(events.drop_last().take(count) =~= events.take(count));
        lemma_fault_stays(events.drop_last(), count);
    } else {
        assert(events.take(count) =~= events);
    }
}

/// The context as a short name, where it is one.
pub fn sanitize_reasoning_context(value: &str) -> (name: Option<String>)
    ensures
        text::optional_text(name) == if is_short_name(value@) {
            Some(value@)
        } else {
            None
        },
{
    let chars = chars_of(value);
    if chars.len() > 32 || chars.len() == 0 {
        return None;
    }
    let mut i: usize = 0;
    while i < chars.len()
        invariant
            chars@ == value@,
            i <= chars@.len(),
            forall|j: int| 0 <= j < i ==> is_name_char(#[trigger] value@[j]),
        decreases chars@.len() - i,
    {
        let c = chars[i];
        if !(('a' <= c && c <= 'z') || ('A' <= c && c <= 'Z') || ('0' <= c && c <= '9') || c == '_'
            || c == '-') {
            assert(!is_name_char(value@[i as int]));
            return None;
        }
        i = i + 1;
    }
    Some(value.to_owned())
}

/// The member `inner` of the member `outer` of the response that an event carries.
fn response_member<'a>(payload: &'a Json, outer: &str, inner: &str) -> (value: Option<&'a Json>)
    ensures
        json::optional_tree(value) == in_response(payload@, outer@, inner@),
{
    match payload.get("response") {
        Some(response) => match response.get(outer) {
            Some(value) => value.get(inner),
            None => None,
        },
        None => None,
    }
}

/// The output item that an event brings.
fn read_done_item(data: &str) -> (item: Result<CapturedRawItem, InlineCompactionError>)
    ensures
        match item {
            Ok(item) => done_item(data@) == Ok::<ItemView, Seq<char>>(item@),
            Err(error) => done_item(data@) matches Err(fault)
                && error.is_invalid_upstream(fault),
        },
{
    let raw = match read_raw_member(data, "item") {
        Some(raw) => raw,
        None => {
            return Err(
                InlineCompactionError::InvalidUpstream("output_item.done is missing its raw item"),
            );
        },
    };
    let index: Option<u64> = match read_raw_member(data, "output_index") {
        None => None,
        Some(written) => match read_simple(written.as_str()) {
            Some(Json::Null) => None,
            Some(Json::Number { text: _, unsigned: Some(index) }) => Some(index),
            _ => {
                return Err(
                    InlineCompactionError::InvalidUpstream(
                        "output_item.done is missing its raw item",
                    ),
                );
            },
        },
    };
    if is_key_repeated(data, "item") || is_key_repeated(data, "output_index") {
        return Err(
            InlineCompactionError::InvalidUpstream("output_item.done is missing its raw item"),
        );
    }
    let output_index: u64 = match index {
        Some(index) if index <= usize::MAX as u64 => index,
        _ => {
            return Err(
                InlineCompactionError::InvalidUpstream("output_item.done has no valid output_index"),
            );
        },
    };
    match parse_json(raw.as_str()) {
        Some(value) => Ok(CapturedRawItem { output_index, raw, value }),
        None => Err(InlineCompactionError::InvalidUpstream("output item is not valid JSON")),
    }
}

/// Puts an item where its index wants it. Returns whether its index was taken already; nothing is
/// put in then.
fn put_item(items: &mut Vec<CapturedRawItem>, item: CapturedRawItem) -> (taken: bool)
    ensures
        taken == has_index(item_views(old(items)@), item@.index),
        taken ==> final(items)@ == old(items)@,
        !taken ==> item_views(final(items)@) == item_views(old(items)@).insert(
            place(item_views(old(items)@), item@.index),
            item@,
        ),
{
    let ghost before = item_views(items@);
    let mut i: usize = 0;
    while i < items.len()
        invariant
            i <= items@.len(),
            before == item_views(items@),
            forall|j: int| 0 <= j < i ==> (#[trigger] before[j]).index != item.output_index,
        decreases items@.len() - i,
    {
        if items[i].output_index == item.output_index {
            assert(before[i as int].index == item.output_index);
            return true;
        }
        i = i + 1;
    }
    let mut at: usize = items.len();
    assert(before.take(at as int) =~= before);
    while at > 0 && items[at - 1].output_index >= item.output_index
        invariant
            at <= items@.len(),
            before == item_views(items@),
            place(before, item.output_index) == place(before.take(at as int), item.output_index),
        decreases at,
    {
        assert(before.take(at as int).drop_last() =~= before.take(at - 1));
        at = at - 1;
    }
    assert(place(before, item.output_index) == at) by {
        if at > 0 {
            assert(before.take(at as int).last() == before[at - 1]);
        }
    }
    let ghost held = item@;
    items.insert(at, item);
    assert(item_views(items@) =~= before.insert(at as int, held));
    false
}

/// How many of the items are compactions, and where the last one stands.
fn find_compactions(items: &Vec<CapturedRawItem>) -> (found: (usize, Option<usize>))
    ensures
        found.0 == compactions(item_views(items@)),
        match last_compaction(item_views(items@)) {
            Some(position) => (found.1 matches Some(p) && p == position) && 0 <= position
                < items@.len(),
            None => found.1 is None,
        },
{
    let ghost held = item_views(items@);
    let mut count: usize = 0;
    let mut last: Option<usize> = None;
    let mut i: usize = 0;
    while i < items.len()
        invariant
            i <= items@.len(),
            held == item_views(items@),
            count == compactions(held.take(i as int)),
            count <= i,
            match last_compaction(held.take(i as int)) {
                Some(position) => (last matches Some(p) && p == position) && 0 <= position < i,
                None => last is None,
            },
        decreases items@.len() - i,
    {
        assert(held.take(i + 1).drop_last() =~= held.take(i as int));
        assert(held.take(i + 1).last() == items@[i as int]@);
        if items[i].value.text_at_is("type", "compaction") {
            count = count + 1;
            last = Some(i);
        }
        i = i + 1;
    }
    assert(held.take(i as int) =~= held);
    (count, last)
}

/// Reads an upstream response stream.
pub fn capture_upstream(body: &[u8], threshold: u64) -> (result: Result<
    CapturedUpstream,
    InlineCompactionError,
>)
    ensures
        match result {
            Ok(captured) => stream_fault(events_of(body@)) is None && captured.says(
                events_of(body@),
                threshold,
            ),
            Err(error) => stream_fault(events_of(body@)) matches Some(fault)
                && error.is_invalid_upstream(fault),
        },
        vstd::utf8::valid_utf8(body@) ==> sse::lossy_text(body@) == vstd::utf8::decode_utf8(body@),
{
    let stream = parse_sse_events(body);
    let ghost events = events_of(body@);
    let mut items: Vec<CapturedRawItem> = Vec::new();
    let mut completed_count: usize = 0;
    let mut usage_input_tokens: Option<u64> = None;
    let mut effective_reasoning_context: Option<String> = None;
    let mut i: usize = 0;
    assert(item_views(items@) =~= Seq::empty());
    while i < stream.len()
        invariant
            i <= stream@.len(),
            vstd::utf8::valid_utf8(body@) ==> sse::lossy_text(body@)
                == vstd::utf8::decode_utf8(body@),
            events == events_of(body@),
            events == text::texts(stream@),
            first_fault(events.take(i as int)) is None,
            item_views(items@) == output_items(events.take(i as int)),
            completed_count == completions(events.take(i as int)),
            completed_count <= i,
            usage_input_tokens == last_usage(events.take(i as int)),
            text::optional_text(effective_reasoning_context) == last_context(
                events.take(i as int),
            ),
        decreases stream@.len() - i,
    {
        let ghost before = events.take(i as int);
        let ghost event = events[i as int];
        assert(events.take(i + 1).drop_last() =~= before);
        assert(events.take(i + 1).last() == event);
        proof {
            if fault_behind(before, event) is Some {
                lemma_fault_stays(events, i + 1);
            }
        }
        i = i + 1;
        let data = trim(stream[i - 1].as_str());
        if data.as_str().is_empty() || same_text(data.as_str(), "[DONE]") {
            continue ;
        }
        let payload = match parse_json(data.as_str()) {
            Some(payload) => payload,
            None => {
                return Err(
                    InlineCompactionError::InvalidUpstream("SSE event data is not valid JSON"),
                );
            },
        };
        if let Some(value) = response_member(&payload, "reasoning", "context") {
            if let Some(context) = value.as_text() {
                if let Some(name) = sanitize_reasoning_context(context) {
                    effective_reasoning_context = Some(name);
                }
            }
        }
        let kind = match payload.text_at("type") {
            Some(kind) => kind.to_owned(),
            None => String::new(),
        };
        assert(kind@ =~= event_kind(payload@));
        if same_text(kind.as_str(), "error") || same_text(kind.as_str(), "response.error")
            || same_text(kind.as_str(), "response.failed") || same_text(
            kind.as_str(),
            "response.incomplete",
        ) {
            return Err(
                InlineCompactionError::InvalidUpstream("upstream emitted a terminal failure"),
            );
        } else if same_text(kind.as_str(), "response.output_item.done") {
            if completed_count > 0 {
                return Err(
                    InlineCompactionError::InvalidUpstream(
                        "output item arrived after response.completed",
                    ),
                );
            }
            let item = match read_done_item(data.as_str()) {
                Ok(item) => item,
                Err(error) => {
                    return Err(error);
                },
            };
            if put_item(&mut items, item) {
                return Err(
                    InlineCompactionError::InvalidUpstream(
                        "duplicate output_index in output_item.done",
                    ),
                );
            }
        } else if same_text(kind.as_str(), "response.completed") {
            completed_count = completed_count + 1;
            usage_input_tokens = match response_member(&payload, "usage", "input_tokens") {
                Some(Json::Number { text: _, unsigned }) => *unsigned,
                _ => None,
            };
            let agrees = match payload.get("response") {
                Some(response) => match response.text_at("status") {
                    Some(status) => same_text(status, "completed"),
                    None => true,
                },
                None => true,
            };
            if !agrees {
                return Err(
                    InlineCompactionError::InvalidUpstream(
                        "response.completed carried a non-completed status",
                    ),
                );
            }
        } else if completed_count > 0 {
            return Err(
                InlineCompactionError::InvalidUpstream(
                    "JSON payload arrived after response.completed",
                ),
            );
        }
    }
    assert(events.take(i as int) =~= events);
    if completed_count != 1 {
        return Err(
            InlineCompactionError::InvalidUpstream("expected exactly one response.completed"),
        );
    }
    let usage: u64 = match usage_input_tokens {
        Some(usage) => usage,
        None => {
            return Err(
                InlineCompactionError::InvalidUpstream("response.completed has no input token usage"),
            );
        },
    };
    let (compaction_count, compaction_position) = find_compactions(&items);
    let last_compaction_item_index: Option<u64> = match compaction_position {
        Some(position) => {
            assert(item_views(items@)[position as int] == items@[position as int]@);
            Some(items[position].output_index)
        },
        None => None,
    };
    let anomaly_reason = if usage >= threshold && compaction_position.is_none() {
        Some("threshold_crossed_without_compaction")
    } else {
        None
    };
    Ok(
        CapturedUpstream {
            items,
            compaction_position,
            compaction_count,
            last_compaction_item_index,
            usage_input_tokens: usage,
            anomaly_reason,
            effective_reasoning_context,
        },
    )
}

/// Whether indexes increase.
pub open spec fn by_index(items: Seq<ItemView>) -> bool {
    forall|i: int, j: int|
        0 <= i < j < items.len() ==> (#[trigger] items[i]).index < (#[trigger] items[j]).index
}

/// Whether one of the events brings the item `item`.
pub open spec fn brings(events: Seq<Seq<char>>, item: ItemView) -> bool {
    exists|i: int|
        0 <= i < events.len() && event_of(#[trigger] events[i]) == Event::Item(
            Ok::<ItemView, Seq<char>>(item),
        )
}

/// An item goes behind those with smaller indexes and before the others.
proof fn lemma_place(items: Seq<ItemView>, index: u64)
    requires
        by_index(items),
    ensures
        0 <= place(items, index) <= items.len(),
        forall|i: int| 0 <= i < place(items, index) ==> (#[trigger] items[i]).index < index,
        forall|i: int|
            place(items, index) <= i < items.len() ==> index <= (#[trigger] items[i]).index,
    decreases items.len(),
{
    if items.len() > 0 {
        let front = items.drop_last();
        if items.last().index < index {
            assert forall|i: int| 0 <= i < items.len() implies (#[trigger] items[i]).index
                < index by {
                if i < items.len() - 1 {
                    assert(items[i].index < items[items.len() - 1].index);
                }
            }
        } else {
            lemma_place(front, index);
            assert forall|i: int| 0 <= i < place(items, index) implies (#[trigger] items[i]).index
                < index by {
                assert(front[i] == items[i]);
            }
            assert forall|i: int| place(items, index) <= i < items.len() implies index <= (
            #[trigger] items[i]).index by {
                if i < front.len() {
                    assert(front[i] == items[i]);
                }
            }
        }
    }
}

/// The output items of a stream stand by increasing index, whatever the order in which they
/// arrived; they are the items that its events bring and no others.
pub proof fn law_items_stand_by_index(events: Seq<Seq<char>>)
    requires
        first_fault(events) is None,
    ensures
        by_index(output_items(events)),
        forall|item: ItemView|
            output_items(events).contains(item) <==> #[trigger] brings(events, item),
    decreases events.len(),
{
    let all = output_items(events);
    if events.len() == 0 {
        assert forall|item: ItemView| all.contains(item) <==> #[trigger] brings(events, item) by {}
    } else {
        let front = events.drop_last();
        let items = output_items(front);
        law_items_stand_by_index(front);
        match event_of(events.last()) {
            Event::Item(Ok(new)) => {
                let at = place(items, new.index);
                lemma_place(items, new.index);
                assert(!has_index(items, new.index));
                assert forall|i: int, j: int| 0 <= i < j < all.len() implies (
                #[trigger] all[i]).index < (#[trigger] all[j]).index by {
                    if j == at {
                        assert(all[i] == items[i]);
                    } else if i == at {
                        assert(all[j] == items[j - 1]);
                        assert(items[j - 1].index != new.index);
                    } else {
                        assert(all[i] == items[if i < at { i } else { i - 1 }]);
                        assert(all[j] == items[if j < at { j } else { j - 1 }]);
                    }
                }
                assert(all[at] == new);
                assert forall|item: ItemView| all.contains(item) <==> #[trigger] brings(
                    events,
                    item,
                ) by {
                    if all.contains(item) {
                        let i = choose|i: int| 0 <= i < all.len() && all[i] == item;
                        if i != at {
                            assert(items[if i < at { i } else { i - 1 }] == item);
                            assert(items.contains(item));
                            lemma_brings_grows(events, item);
                        } else {
                            assert(event_of(events[events.len() - 1]) == Event::Item(
                                Ok::<ItemView, Seq<char>>(item),
                            ));
                        }
                    }
                    if brings(events, item) {
                        lemma_brings_shrinks(events, item);
                        if item != new {
                            assert(items.contains(item));
                            let i = choose|i: int| 0 <= i < items.len() && items[i] == item;
                            assert(all[if i < at { i } else { i + 1 }] == item);
                        }
                    }
                }
            },
            _ => {
                assert forall|item: ItemView| all.contains(item) <==> #[trigger] brings(
                    events,
                    item,
                ) by {
                    if brings(events, item) {
                        lemma_brings_shrinks(events, item);
                    }
                    if brings(front, item) {
                        lemma_brings_grows(events, item);
                    }
                    assert(items.contains(item) <==> brings(front, item));
                }
            },
        }
    }
}

/// What the first events bring, all events bring.
proof fn lemma_brings_grows(events: Seq<Seq<char>>, item: ItemView)
    requires
        events.len() > 0,
        brings(events.drop_last(), item),
    ensures
        brings(events, item),
{
    let front = events.drop_last();
    let i = choose|i: int|
        0 <= i < front.len() && event_of(#[trigger] front[i]) == Event::Item(
            Ok::<ItemView, Seq<char>>(item),
        );
    assert(events[i] == front[i]);
}

/// What all events bring, the last one brings or one before it.
proof fn lemma_brings_shrinks(events: Seq<Seq<char>>, item: ItemView)
    requires
        events.len() > 0,
        brings(events, item),
    ensures
        brings(events.drop_last(), item) || event_of(events.last()) == Event::Item(
            Ok::<ItemView, Seq<char>>(item),
        ),
{
    let i = choose|i: int|
        0 <= i < events.len() && event_of(#[trigger] events[i]) == Event::Item(
            Ok::<ItemView, Seq<char>>(item),
        );
    if i < events.len() - 1 {
        assert(events.drop_last()[i] == events[i]);
    }
}

/// Items by index that are the same items are the same sequence.
proof fn lemma_by_index_agree(a: Seq<ItemView>, b: Seq<ItemView>)
    requires
        by_index(a),
        by_index(b),
        forall|item: ItemView| #[trigger] a.contains(item) <==> b.contains(item),
    ensures
        a == b,
    decreases a.len(),
{
    if a.len() == 0 || b.len() == 0 {
        if a.len() > 0 {
            assert(a.contains(a[0]));
            assert(b.contains(a[0]));
        }
        if b.len() > 0 {
            assert(b.contains(b[0]));
            assert(a.contains(b[0]));
        }
        assert(a =~= b);
    } else {
        let (x, y) = (a.last(), b.last());
        let (p, q) = (a.drop_last(), b.drop_last());
        assert(a.contains(a[a.len() - 1]));
        assert(b.contains(b[b.len() - 1]));
        assert(b.contains(x) && a.contains(y));
        let i = choose|i: int| 0 <= i < b.len() && b[i] == x;
        let j = choose|j: int| 0 <= j < a.len() && a[j] == y;
        assert(x == y) by {
            if i < b.len() - 1 {
                assert(b[i].index < b[b.len() - 1].index);
                if j < a.len() - 1 {
                    assert(a[j].index < a[a.len() - 1].index);
                }
            }
        }
        assert forall|item: ItemView| #[trigger] p.contains(item) <==> q.contains(item) by {
            if p.contains(item) {
                let k = choose|k: int| 0 <= k < p.len() && p[k] == item;
                assert(a[k] == item);
                assert(a[k].index < a[a.len() - 1].index);
                assert(a.contains(item));
                assert(b.contains(item));
                let l = choose|l: int| 0 <= l < b.len() && b[l] == item;
                assert(q[l] == item);
            }
            if q.contains(item) {
                let k = choose|k: int| 0 <= k < q.len() && q[k] == item;
                assert(b[k] == item);
                assert(b[k].index < b[b.len() - 1].index);
                assert(b.contains(item));
                assert(a.contains(item));
                let l = choose|l: int| 0 <= l < a.len() && a[l] == item;
                assert(p[l] == item);
            }
        }
        lemma_by_index_agree(p, q);
        assert(a =~= p.push(x));
        assert(b =~= q.push(y));
    }
}

/// Two streams that bring the same items, in whatever order, have the same output items in the
/// same order.
pub proof fn law_arrival_order_is_immaterial(a: Seq<Seq<char>>, b: Seq<Seq<char>>)
    requires
        first_fault(a) is None,
        first_fault(b) is None,
        forall|item: ItemView| #[trigger] brings(a, item) <==> brings(b, item),
    ensures
        output_items(a) == output_items(b),
{
    law_items_stand_by_index(a);
    law_items_stand_by_index(b);
    assert forall|item: ItemView| #[trigger]
        output_items(a).contains(item) <==> output_items(b).contains(item) by {
        assert(brings(a, item) <==> brings(b, item));
    }
    lemma_by_index_agree(output_items(a), output_items(b));
}

/// The last compaction is one, and no item behind it is.
pub proof fn law_last_compaction_is_the_last(items: Seq<ItemView>)
    ensures
        match last_compaction(items) {
            Some(position) => 0 <= position < items.len() && is_compaction(items[position])
                && forall|i: int|
                position < i < items.len() ==> !is_compaction(#[trigger] items[i]),
            None => forall|i: int| 0 <= i < items.len() ==> !is_compaction(#[trigger] items[i]),
        },
    decreases items.len(),
{
    if items.len() > 0 && !is_compaction(items.last()) {
        let front = items.drop_last();
        law_last_compaction_is_the_last(front);
        assert(forall|i: int| 0 <= i < front.len() ==> front[i] == items[i]);
    }
}

/// Whether the event at position `end` completes the response and nothing but empty data and end
/// markers follow it.
pub open spec fn ends_at(events: Seq<Seq<char>>, end: int) -> bool {
    &&& 0 <= end < events.len()
    &&& event_of(events[end]) is Completed
    &&& forall|i: int| end < i < events.len() ==> event_of(#[trigger] events[i]) is Nothing
}

/// The position of the event that ends a stream with one completed response.
proof fn lemma_end(events: Seq<Seq<char>>) -> (end: int)
    requires
        first_fault(events) is None,
        completions(events) == 1,
    ensures
        ends_at(events, end),
    decreases events.len(),
{
    if event_of(events.last()) is Completed {
        events.len() - 1
    } else {
        let front = events.drop_last();
        let end = lemma_end(front);
        assert(events[end] == front[end]);
        assert forall|i: int| end < i < events.len() implies event_of(
            #[trigger] events[i],
        ) is Nothing by {
            if i < front.len() {
                assert(events[i] == front[i]);
            }
        }
        end
    }
}

/// A stream that is accepted has one completed response, and no JSON payload follows it.
pub proof fn law_nothing_follows_the_completion(events: Seq<Seq<char>>)
    requires
        stream_fault(events) is None,
    ensures
        completions(events) == 1,
        exists|end: int| ends_at(events, end),
{
    let end = lemma_end(events);
    assert(ends_at(events, end));
}

/// The compactions that are counted are the items of the type `compaction`.
pub proof fn law_compactions_are_counted(items: Seq<ItemView>)
    ensures
        compactions(items) == items.filter(
            |item: ItemView| item.value.text_at("type"@) == Some("compaction"@),
        ).len(),
    decreases items.len(),
{
    reveal(Seq::filter);
    if items.len() > 0 {
        law_compactions_are_counted(items.drop_last());
    }
}

/// Whether an event carries the JSON value `payload`: its data, white space around it aside, is
/// neither empty nor the end marker and reads as that value.
pub open spec fn carries(event: Seq<char>, payload: JsonTree) -> bool {
    &&& parts::trimmed(event).len() > 0
    &&& parts::trimmed(event) != "[DONE]"@
    &&& parsing::parsed(parts::trimmed(event)) == Some(payload)
}

/// What an event means is told by the type of the value that it carries: four types say that the
/// response failed, one brings an output item, one completes the response, and an event of any other
/// type, or of none, is passed over.
pub proof fn law_events_are_told_by_their_type(event: Seq<char>, payload: JsonTree)
    requires
        carries(event, payload),
    ensures
        event_of(event) is Failure <==> (payload.text_at("type"@) == Some("error"@)
            || payload.text_at("type"@) == Some("response.error"@) || payload.text_at("type"@)
            == Some("response.failed"@) || payload.text_at("type"@) == Some(
            "response.incomplete"@,
        )),
        event_of(event) is Item <==> payload.text_at("type"@) == Some(
            "response.output_item.done"@,
        ),
        event_of(event) is Completed <==> payload.text_at("type"@) == Some("response.completed"@),
        event_of(event) is Other <==> !(event_of(event) is Failure) && !(event_of(event) is Item)
            && !(event_of(event) is Completed),
        event_of(event) matches Event::Completed { usage, agrees } ==> {
            &&& usage == match payload.get("response"@) {
                Some(response) => match response.get("usage"@) {
                    Some(usage) => match usage.get("input_tokens"@) {
                        Some(JsonTree::Number(_, unsigned)) => unsigned,
                        _ => None,
                    },
                    None => None,
                },
                None => None,
            }
            &&& agrees <==> match payload.get("response"@) {
                Some(response) => match response.get("status"@) {
                    Some(JsonTree::Text(status)) => status == "completed"@,
                    _ => true,
                },
                None => true,
            }
        },
{
    lemma_types_differ();
}

/// The types of events are different texts, and none is empty.
proof fn lemma_types_differ()
    ensures
        "error"@.len() > 0,
        "response.error"@.len() > 0,
        "response.failed"@.len() > 0,
        "response.incomplete"@.len() > 0,
        "response.output_item.done"@.len() > 0,
        "response.completed"@.len() > 0,
        "response.output_item.done"@ != "error"@,
        "response.output_item.done"@ != "response.error"@,
        "response.output_item.done"@ != "response.failed"@,
        "response.output_item.done"@ != "response.incomplete"@,
        "response.completed"@ != "error"@,
        "response.completed"@ != "response.error"@,
        "response.completed"@ != "response.failed"@,
        "response.completed"@ != "response.incomplete"@,
        "response.completed"@ != "response.output_item.done"@,
{
    reveal_strlit("error");
    reveal_strlit("response.error");
    reveal_strlit("response.failed");
    reveal_strlit("response.incomplete");
    reveal_strlit("response.output_item.done");
    reveal_strlit("response.completed");
    assert("error"@.len() == 5 && "response.error"@.len() == 14 && "response.failed"@.len() == 15);
    assert("response.incomplete"@.len() == 19 && "response.completed"@.len() == 18);
    assert("response.output_item.done"@.len() == 25);
}

/// An event whose data is empty or the end marker means nothing, and one whose data is no JSON value
/// is a fault; no other event is either.
pub proof fn law_data_is_nothing_or_json(event: Seq<char>)
    ensures
        event_of(event) is Nothing <==> parts::trimmed(event).len() == 0 || parts::trimmed(event)
            == "[DONE]"@,
        event_of(event) is NotJson <==> parts::trimmed(event).len() > 0 && parts::trimmed(event)
            != "[DONE]"@ && parsing::parsed(parts::trimmed(event)) is None,
{
}

/// An event brings an output item just where its data writes, once each, an index that is a number
/// and an item that is a JSON value: the item is kept as it is written, with its value.
pub proof fn law_done_items_are_kept_as_written(event: Seq<char>, payload: JsonTree, item: ItemView)
    requires
        carries(event, payload),
        payload.text_at("type"@) == Some("response.output_item.done"@),
    ensures
        ({
            let data = parts::trimmed(event);
            let written = parsing::raw_member(data, "output_index"@);
            event_of(event) == Event::Item(Ok::<ItemView, Seq<char>>(item)) <==> {
                &&& parsing::raw_member(data, "item"@) == Some(item.raw)
                &&& parsing::parsed(item.raw) == Some(item.value)
                &&& written is Some
                &&& !parts::stands_at(written->0, "{"@, 0)
                &&& parsing::parsed(written->0) matches Some(JsonTree::Number(_, Some(index)))
                &&& index == item.index
                &&& item.index <= usize::MAX
                &&& !keys::is_repeated(data, "item"@)
                &&& !keys::is_repeated(data, "output_index"@)
            }
        }),
{
    lemma_types_differ();
}

/// Whether an event is one that a stream may hold: nothing, an output item, a completed response
/// that names no other status, or an event of a type that is passed over.
pub open spec fn is_sound(event: Seq<char>) -> bool {
    match event_of(event) {
        Event::Nothing => true,
        Event::Other => true,
        Event::Item(item) => item is Ok,
        Event::Completed { agrees, .. } => agrees,
        _ => false,
    }
}

/// Whether the items that events bring have indexes of their own.
pub open spec fn indexes_differ(events: Seq<Seq<char>>) -> bool {
    forall|i: int, j: int|
        #![trigger events[i], events[j]]
        0 <= i < j < events.len() && event_of(events[i]) is Item && event_of(events[j]) is Item
            ==> event_of(events[i])->Item_0->Ok_0.index != event_of(events[j])->Item_0->Ok_0.index
}

/// An index is among the output items just where an event before brought it.
proof fn lemma_index_was_brought(events: Seq<Seq<char>>, index: u64)
    requires
        first_fault(events) is None,
    ensures
        has_index(output_items(events), index) <==> exists|i: int|
            0 <= i < events.len() && (event_of(#[trigger] events[i]) matches Event::Item(Ok(item))
                && item.index == index),
{
    law_items_stand_by_index(events);
    let items = output_items(events);
    if has_index(items, index) {
        let i = choose|i: int| 0 <= i < items.len() && (#[trigger] items[i]).index == index;
        assert(items.contains(items[i]));
        assert(brings(events, items[i]));
        let j = choose|j: int|
            0 <= j < events.len() && event_of(#[trigger] events[j]) == Event::Item(
                Ok::<ItemView, Seq<char>>(items[i]),
            );
        assert(event_of(events[j]) matches Event::Item(Ok(item)) && item.index == index);
    }
    if exists|i: int|
        0 <= i < events.len() && (event_of(#[trigger] events[i]) matches Event::Item(Ok(item))
            && item.index == index) {
        let i = choose|i: int|
            0 <= i < events.len() && (event_of(#[trigger] events[i]) matches Event::Item(Ok(item))
                && item.index == index);
        let item = event_of(events[i])->Item_0->Ok_0;
        assert(brings(events, item));
        assert(items.contains(item));
        let j = choose|j: int| 0 <= j < items.len() && items[j] == item;
        assert(items[j].index == index);
    }
}

/// Events without a completed response have no fault just where each is sound and the indexes
/// differ.
proof fn lemma_open_stream(events: Seq<Seq<char>>)
    requires
        forall|i: int| 0 <= i < events.len() ==> !(event_of(#[trigger] events[i]) is Completed),
    ensures
        completions(events) == 0,
        first_fault(events) is None <==> indexes_differ(events) && forall|i: int|
            0 <= i < events.len() ==> is_sound(#[trigger] events[i]),
    decreases events.len(),
{
    if events.len() > 0 {
        let front = events.drop_last();
        let last = events.len() - 1;
        assert forall|i: int| 0 <= i < front.len() implies !(event_of(
            #[trigger] front[i],
        ) is Completed) by {
            assert(front[i] == events[i]);
        }
        lemma_open_stream(front);
        assert(!(event_of(events[last]) is Completed));
        if first_fault(front) is None {
            if let Event::Item(Ok(item)) = event_of(events.last()) {
                lemma_index_was_brought(front, item.index);
            }
        }
        if first_fault(events) is None {
            assert forall|i: int| 0 <= i < events.len() implies is_sound(#[trigger] events[i]) by {
                if i < last {
                    assert(front[i] == events[i]);
                }
            }
            assert forall|i: int, j: int|
                #![trigger events[i], events[j]]
                0 <= i < j < events.len() && event_of(events[i]) is Item && event_of(
                    events[j],
                ) is Item implies event_of(events[i])->Item_0->Ok_0.index != event_of(
                events[j],
            )->Item_0->Ok_0.index by {
                assert(front[i] == events[i]);
                assert(is_sound(events[i]) && is_sound(events[j]));
                if j < last {
                    assert(front[j] == events[j]);
                } else {
                    assert(event_of(front[i]) matches Event::Item(Ok(item)));
                }
            }
        }
        if indexes_differ(events) && forall|i: int|
            0 <= i < events.len() ==> is_sound(#[trigger] events[i]) {
            assert forall|i: int| 0 <= i < front.len() implies is_sound(#[trigger] front[i]) by {
                assert(front[i] == events[i]);
            }
            assert forall|i: int, j: int|
                #![trigger front[i], front[j]]
                0 <= i < j < front.len() && event_of(front[i]) is Item && event_of(
                    front[j],
                ) is Item implies event_of(front[i])->Item_0->Ok_0.index != event_of(
                front[j],
            )->Item_0->Ok_0.index by {
                assert(front[i] == events[i] && front[j] == events[j]);
            }
            assert(first_fault(front) is None);
            assert(is_sound(events[last]));
            if let Event::Item(Ok(item)) = event_of(events.last()) {
                assert forall|i: int| 0 <= i < front.len() implies !(event_of(
                    #[trigger] front[i],
                ) matches Event::Item(Ok(other)) && other.index == item.index) by {
                    assert(front[i] == events[i]);
                    assert(events[last] == events.last());
                }
            }
        }
    }
}

/// What ends a stream: nothing that follows a completed response but nothing.
proof fn lemma_closed_stream(events: Seq<Seq<char>>, end: int)
    requires
        ends_at(events, end),
    ensures
        first_fault(events) == first_fault(events.take(end + 1)),
        completions(events) == completions(events.take(end + 1)),
        last_usage(events) == last_usage(events.take(end + 1)),
        output_items(events) == output_items(events.take(end + 1)),
    decreases events.len(),
{
    if end + 1 < events.len() {
        let front = events.drop_last();
        assert(event_of(events[events.len() - 1]) is Nothing);
        assert forall|i: int| end < i < front.len() implies event_of(
            #[trigger] front[i],
        ) is Nothing by {
            assert(front[i] == events[i]);
        }
        assert(front[end] == events[end]);
        lemma_closed_stream(front, end);
        assert(front.take(end + 1) =~= events.take(end + 1));
    } else {
        assert(events.take(end + 1) =~= events);
    }
}

/// A stream is accepted just where one event completes the response, names no other status and tells
/// the input tokens, nothing but empty data and end markers follow it, and before it each event is
/// an output item, with an index of its own, or of a type that is passed over, or nothing. How many
/// events of other types there are, and which, does not matter.
pub proof fn law_accepted_streams(events: Seq<Seq<char>>)
    ensures
        stream_fault(events) is None <==> exists|end: int|
            #![trigger ends_at(events, end)]
            ends_at(events, end) && (event_of(events[end]) matches Event::Completed {
                usage,
                agrees,
            } && usage is Some && agrees) && indexes_differ(events.take(end)) && forall|i: int|
                0 <= i < end ==> is_sound(#[trigger] events[i]) && !(event_of(
                    events[i],
                ) is Completed),
{
    if stream_fault(events) is None {
        let end = lemma_end(events);
        lemma_closed_stream(events, end);
        let whole = events.take(end + 1);
        let front = events.take(end);
        assert(whole.drop_last() =~= front);
        assert(whole.last() == events[end]);
        assert(completions(front) == 0);
        lemma_no_completions(front);
        lemma_open_stream(front);
        assert forall|i: int| 0 <= i < end implies is_sound(#[trigger] events[i]) && !(event_of(
            events[i],
        ) is Completed) by {
            assert(front[i] == events[i]);
        }
        assert(ends_at(events, end));
    }
    if exists|end: int|
        #![trigger ends_at(events, end)]
        ends_at(events, end) && (event_of(events[end]) matches Event::Completed { usage, agrees }
            && usage is Some && agrees) && indexes_differ(events.take(end)) && forall|i: int|
            0 <= i < end ==> is_sound(#[trigger] events[i]) && !(event_of(events[i]) is Completed) {
        let end = choose|end: int|
            #![trigger ends_at(events, end)]
            ends_at(events, end) && (event_of(events[end]) matches Event::Completed {
                usage,
                agrees,
            } && usage is Some && agrees) && indexes_differ(events.take(end)) && forall|i: int|
                0 <= i < end ==> is_sound(#[trigger] events[i]) && !(event_of(
                    events[i],
                ) is Completed);
        lemma_closed_stream(events, end);
        let whole = events.take(end + 1);
        let front = events.take(end);
        assert(whole.drop_last() =~= front);
        assert(whole.last() == events[end]);
        assert forall|i: int| 0 <= i < front.len() implies is_sound(#[trigger] front[i]) && !(
        event_of(front[i]) is Completed) by {
            assert(front[i] == events[i]);
        }
        lemma_open_stream(front);
    }
}

/// Events that do not complete a response are none that does.
proof fn lemma_no_completions(events: Seq<Seq<char>>)
    requires
        completions(events) == 0,
    ensures
        forall|i: int| 0 <= i < events.len() ==> !(event_of(#[trigger] events[i]) is Completed),
    decreases events.len(),
{
    if events.len() > 0 {
        let front = events.drop_last();
        lemma_no_completions(front);
        assert forall|i: int| 0 <= i < events.len() implies !(event_of(
            #[trigger] events[i],
        ) is Completed) by {
            if i < front.len() {
                assert(front[i] == events[i]);
            }
        }
    }
}

/// An event of a type that is passed over, before the response is completed, changes nothing of what
/// a stream comes to: neither its fault, nor its items, nor the tokens that it tells.
pub proof fn law_other_events_change_nothing(
    before: Seq<Seq<char>>,
    event: Seq<char>,
    payload: JsonTree,
    behind: Seq<Seq<char>>,
)
    requires
        carries(event, payload),
        payload.text_at("type"@) != Some("error"@),
        payload.text_at("type"@) != Some("response.error"@),
        payload.text_at("type"@) != Some("response.failed"@),
        payload.text_at("type"@) != Some("response.incomplete"@),
        payload.text_at("type"@) != Some("response.output_item.done"@),
        payload.text_at("type"@) != Some("response.completed"@),
        forall|i: int| 0 <= i < before.len() ==> !(event_of(#[trigger] before[i]) is Completed),
    ensures
        stream_fault(before + seq![event] + behind) == stream_fault(before + behind),
        output_items(before + seq![event] + behind) == output_items(before + behind),
        last_usage(before + seq![event] + behind) == last_usage(before + behind),
{
    law_events_are_told_by_their_type(event, payload);
    lemma_other_event(before, event, behind);
}

/// An event that is passed over changes nothing.
proof fn lemma_other_event(before: Seq<Seq<char>>, event: Seq<char>, behind: Seq<Seq<char>>)
    requires
        event_of(event) is Other,
        forall|i: int| 0 <= i < before.len() ==> !(event_of(#[trigger] before[i]) is Completed),
    ensures
        first_fault(before + seq![event] + behind) == first_fault(before + behind),
        completions(before + seq![event] + behind) == completions(before + behind),
        output_items(before + seq![event] + behind) == output_items(before + behind),
        last_usage(before + seq![event] + behind) == last_usage(before + behind),
    decreases behind.len(),
{
    let longer = before + seq![event] + behind;
    let shorter = before + behind;
    if behind.len() == 0 {
        assert(longer.drop_last() =~= before);
        assert(shorter =~= before);
        lemma_open_stream(before);
    } else {
        let front = behind.drop_last();
        lemma_other_event(before, event, front);
        assert(longer.drop_last() =~= before + seq![event] + front);
        assert(shorter.drop_last() =~= before + front);
        assert(longer.last() == behind.last() && shorter.last() == behind.last());
    }
}

/// The tokens that an accepted stream tells are those of the event that completes the response.
pub proof fn law_usage_is_that_of_the_completion(events: Seq<Seq<char>>, end: int)
    requires
        stream_fault(events) is None,
        ends_at(events, end),
    ensures
        event_of(events[end]) matches Event::Completed { usage, .. } && last_usage(events)
            == usage,
{
    lemma_closed_stream(events, end);
    let whole = events.take(end + 1);
    assert(whole.last() == events[end]);
}

/// The first event that is wrong decides what a stream is refused for: what is wrong with it does
/// not depend on what follows it.
pub proof fn law_first_fault_decides(events: Seq<Seq<char>>, count: int)
    requires
        0 <= count < events.len(),
        first_fault(events.take(count)) is None,
        fault_behind(events.take(count), events[count]) is Some,
    ensures
        stream_fault(events) == fault_behind(events.take(count), events[count]),
{
    let whole = events.take(count + 1);
    assert(whole.drop_last() =~= events.take(count));
    assert(whole.last() == events[count]);
    lemma_fault_stays(events, count + 1);
}

/// What each fault of an event is called.
pub proof fn law_faults_are_named(before: Seq<Seq<char>>, event: Seq<char>)
    ensures
        event_of(event) is NotJson ==> fault_behind(before, event) == Some(
            "SSE event data is not valid JSON"@,
        ),
        event_of(event) is Failure ==> fault_behind(before, event) == Some(
            "upstream emitted a terminal failure"@,
        ),
        event_of(event) is Item && completions(before) > 0 ==> fault_behind(before, event) == Some(
            "output item arrived after response.completed"@,
        ),
        event_of(event) is Item && completions(before) == 0 && event_of(event)->Item_0 is Err
            ==> fault_behind(before, event) == Some(event_of(event)->Item_0->Err_0),
        event_of(event) is Item && completions(before) == 0 && event_of(event)->Item_0 is Ok
            && has_index(output_items(before), event_of(event)->Item_0->Ok_0.index)
            ==> fault_behind(before, event) == Some("duplicate output_index in output_item.done"@),
        event_of(event) is Completed && !event_of(event)->agrees ==> fault_behind(before, event)
            == Some("response.completed carried a non-completed status"@),
        event_of(event) is Other && completions(before) > 0 ==> fault_behind(before, event) == Some(
            "JSON payload arrived after response.completed"@,
        ),
        event_of(event) is Nothing ==> fault_behind(before, event) is None,
        event_of(event) is Other && completions(before) == 0 ==> fault_behind(before, event) is None,
        event_of(event) is Completed && event_of(event)->agrees ==> fault_behind(
            before,
            event,
        ) is None,
        event_of(event) is Item && completions(before) == 0 && event_of(event)->Item_0 is Ok
            && !has_index(output_items(before), event_of(event)->Item_0->Ok_0.index)
            ==> fault_behind(before, event) is None,
{
}

/// What an accepted stream is captured as: its output items by increasing index; the last one of the
/// type `compaction`, how many of that type there are, and the index of the last; the tokens; and a
/// reason just where the tokens reached the threshold without a compaction.
pub proof fn law_captured_stream_says_what_it_brought(
    captured: CapturedUpstream,
    events: Seq<Seq<char>>,
    threshold: u64,
)
    requires
        captured.says(events, threshold),
        stream_fault(events) is None,
    ensures
        ({
            let items = captured.items@;
            let plain = forall|i: int|
                0 <= i < items.len() ==> (#[trigger] items[i]).value@.text_at("type"@) != Some(
                    "compaction"@,
                );
            &&& forall|i: int, j: int|
                0 <= i < j < items.len() ==> (#[trigger] items[i]).output_index < (
                #[trigger] items[j]).output_index
            &&& forall|i: int| 0 <= i < items.len() ==> brings(events, (#[trigger] items[i])@)
            &&& forall|item: ItemView| #[trigger]
                brings(events, item) ==> exists|i: int|
                    0 <= i < items.len() && (#[trigger] items[i])@ == item
            &&& captured.compaction_position is None <==> plain
            &&& captured.compaction_position matches Some(position) ==> {
                &&& position < items.len()
                &&& items[position as int].value@.text_at("type"@) == Some("compaction"@)
                &&& forall|i: int|
                    position < i < items.len() ==> (#[trigger] items[i]).value@.text_at("type"@)
                        != Some("compaction"@)
                &&& captured.last_compaction_item_index == Some(
                    items[position as int].output_index,
                )
            }
            &&& plain ==> captured.last_compaction_item_index is None
            &&& captured.anomaly_reason is Some <==> plain && captured.usage_input_tokens
                >= threshold
        }),
{
    let items = captured.items@;
    let views = output_items(events);
    law_items_stand_by_index(events);
    law_last_compaction_is_the_last(views);
    assert(item_views(items) == views);
    assert(items.len() == views.len());
    assert forall|i: int| 0 <= i < items.len() implies (#[trigger] items[i])@ == views[i] by {
        assert(item_views(items)[i] == items[i]@);
    }
    assert forall|i: int, j: int| 0 <= i < j < items.len() implies (
    #[trigger] items[i]).output_index < (#[trigger] items[j]).output_index by {
        assert(views[i].index < views[j].index);
    }
    assert forall|i: int| 0 <= i < items.len() implies brings(events, (#[trigger] items[i])@) by {
        assert(views.contains(views[i]));
    }
    assert forall|item: ItemView| #[trigger] brings(events, item) implies exists|i: int|
        0 <= i < items.len() && (#[trigger] items[i])@ == item by {
        assert(views.contains(item));
        let i = choose|i: int| 0 <= i < views.len() && views[i] == item;
        assert(items[i]@ == item);
    }
    if let Some(position) = last_compaction(views) {
        assert(items[position]@ == views[position]);
        assert(items[position].value@.text_at("type"@) == Some("compaction"@));
        assert forall|i: int| position < i < items.len() implies (
        #[trigger] items[i]).value@.text_at("type"@) != Some("compaction"@) by {
            assert(!is_compaction(views[i]));
        }
    } else {
        assert forall|i: int| 0 <= i < items.len() implies (#[trigger] items[i]).value@.text_at(
            "type"@,
        ) != Some("compaction"@) by {
            assert(!is_compaction(views[i]));
        }
    }
}

/// The reasoning context of a stream is the one named last: a text of one to 32 ASCII letters,
/// digits, underscores and hyphens, under `context` of `reasoning` of the response.
pub proof fn law_context_is_the_one_named_last(events: Seq<Seq<char>>, context: Seq<char>)
    ensures
        last_context(events) == Some(context) <==> exists|i: int|
            #![trigger events[i]]
            0 <= i < events.len() && context_of(events[i]) == Some(context) && forall|j: int|
                i < j < events.len() ==> context_of(#[trigger] events[j]) is None,
    decreases events.len(),
{
    if events.len() > 0 {
        let front = events.drop_last();
        let last = events.len() - 1;
        law_context_is_the_one_named_last(front, context);
        if context_of(events.last()) is None {
            if last_context(front) == Some(context) {
                let i = choose|i: int|
                    #![trigger front[i]]
                    0 <= i < front.len() && context_of(front[i]) == Some(context) && forall|j: int|
                        i < j < front.len() ==> context_of(#[trigger] front[j]) is None;
                assert(events[i] == front[i]);
                assert forall|j: int| i < j < events.len() implies context_of(
                    #[trigger] events[j],
                ) is None by {
                    if j < last {
                        assert(front[j] == events[j]);
                    }
                }
            }
            if exists|i: int|
                #![trigger events[i]]
                0 <= i < events.len() && context_of(events[i]) == Some(context) && forall|j: int|
                    i < j < events.len() ==> context_of(#[trigger] events[j]) is None {
                let i = choose|i: int|
                    #![trigger events[i]]
                    0 <= i < events.len() && context_of(events[i]) == Some(context)
                        && forall|j: int|
                        i < j < events.len() ==> context_of(#[trigger] events[j]) is None;
                assert(front[i] == events[i]);
                assert forall|j: int| i < j < front.len() implies context_of(
                    #[trigger] front[j],
                ) is None by {
                    assert(front[j] == events[j]);
                }
            }
        } else {
            assert(events[last] == events.last());
            if exists|i: int|
                #![trigger events[i]]
                0 <= i < events.len() && context_of(events[i]) == Some(context) && forall|j: int|
                    i < j < events.len() ==> context_of(#[trigger] events[j]) is None {
                let i = choose|i: int|
                    #![trigger events[i]]
                    0 <= i < events.len() && context_of(events[i]) == Some(context)
                        && forall|j: int|
                        i < j < events.len() ==> context_of(#[trigger] events[j]) is None;
                assert(i == last);
            }
        }
    }
}

/// An event names a reasoning context just where the value that it carries has one of these texts
/// there.
pub proof fn law_contexts_are_short_names(event: Seq<char>, payload: JsonTree)
    requires
        carries(event, payload),
    ensures
        context_of(event) is Some ==> {
            let context = context_of(event)->0;
            &&& payload.get("response"@) matches Some(response)
            &&& response.get("reasoning"@) matches Some(reasoning)
            &&& reasoning.get("context"@) == Some(JsonTree::Text(context))
            &&& 1 <= context.len() <= 32
            &&& forall|i: int|
                0 <= i < context.len() ==> {
                    let c = #[trigger] context[i];
                    'a' <= c <= 'z' || 'A' <= c <= 'Z' || '0' <= c <= '9' || c == '_' || c == '-'
                }
        },
        context_of(event) is None ==> !(payload.get("response"@) matches Some(response)
            && response.get("reasoning"@) matches Some(reasoning) && reasoning.get("context"@)
            matches Some(JsonTree::Text(context)) && 1 <= context.len() <= 32 && forall|i: int|
            0 <= i < context.len() ==> {
                let c = #[trigger] context[i];
                'a' <= c <= 'z' || 'A' <= c <= 'Z' || '0' <= c <= '9' || c == '_' || c == '-'
            }),
{
}

/// A done item is refused where its item is missing, where its index is something else than a
/// number, where one of the two is written twice, where it has no index, and where its item is no
/// JSON value.
pub proof fn law_refused_items_are_named(data: Seq<char>)
    ensures
        parsing::raw_member(data, "item"@) is None ==> done_item(data) == Err::<
            ItemView,
            Seq<char>,
        >("output_item.done is missing its raw item"@),
        index_of(data) is None ==> done_item(data) == Err::<ItemView, Seq<char>>(
            "output_item.done is missing its raw item"@,
        ),
        keys::is_repeated(data, "item"@) || keys::is_repeated(data, "output_index"@) ==> done_item(
            data,
        ) == Err::<ItemView, Seq<char>>("output_item.done is missing its raw item"@),
        parsing::raw_member(data, "item"@) matches Some(raw) ==> {
            let once = !keys::is_repeated(data, "item"@) && !keys::is_repeated(
                data,
                "output_index"@,
            );
            &&& once && index_of(data) == Some(None::<u64>) ==> done_item(data) == Err::<
                ItemView,
                Seq<char>,
            >("output_item.done has no valid output_index"@)
            &&& once && index_of(data) is Some && index_of(data)->0 is Some && index_of(data)->0->0
                <= usize::MAX && parsing::parsed(raw) is None ==> done_item(data) == Err::<
                ItemView,
                Seq<char>,
            >("output item is not valid JSON"@)
        },
{
}

/// The index of a done item is the number that is written for it. Null stands for none, as leaving
/// it out does, and anything else is no index.
pub proof fn law_indexes_are_read_as_written(data: Seq<char>, index: u64)
    ensures
        parsing::raw_member(data, "output_index"@) is None ==> index_of(data) == Some(None::<u64>),
        parsing::raw_member(data, "output_index"@) matches Some(written) ==> {
            &&& index_of(data) == Some(Some(index)) <==> (written.len() == 0 || written[0] != '{')
                && (parsing::parsed(written) matches Some(value)
                && value matches JsonTree::Number(_, Some(n)) && n == index)
            &&& index_of(data) == Some(None::<u64>) <==> (written.len() == 0 || written[0] != '{')
                && parsing::parsed(written) == Some(JsonTree::Null)
        },
{
    reveal_strlit("{");
    assert("{"@.len() == 1 && "{"@[0] == '{');
    if let Some(written) = parsing::raw_member(data, "output_index"@) {
        if written.len() > 0 {
            assert(written.subrange(0, 1)[0] == written[0]);
            if written[0] == '{' {
                assert(written.subrange(0, 1) =~= "{"@);
            }
        }
    }
}

/// A stream without a fault in its events is refused where it completes the response not once, and
/// where the completion names no input tokens.
pub proof fn law_incomplete_streams_are_named(events: Seq<Seq<char>>)
    requires
        first_fault(events) is None,
    ensures
        completions(events) != 1 ==> stream_fault(events) == Some(
            "expected exactly one response.completed"@,
        ),
        completions(events) == 1 && last_usage(events) is None ==> stream_fault(events) == Some(
            "response.completed has no input token usage"@,
        ),
        completions(events) == 1 && last_usage(events) is Some ==> stream_fault(events) is None,
{
}

}
