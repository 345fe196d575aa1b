//! The fields of a record, which is written as a JSON object or as a JSON array, and what they are
//! read as.

use vstd::prelude::*;
use vstd::string::*;

use crate::canonical;
use crate::decimal;
use crate::encoding;
use crate::json::{Json, JsonTree};
use crate::keys;
use crate::parsing::{find_beside, parse_json, read_raw_elements, read_raw_members};
use crate::parsing;
use crate::parts::begins_with;
use crate::parts;
use crate::recognition::{Recognition, RecognitionView};
use crate::recognition;
use crate::request;
use crate::sidecar;
use crate::text::same_text;
use crate::text;

verus! {

/// How a field of a record is written: the member with its key where the record is an object, and
/// the element at its position where it is an array with one element for each field.
pub open spec fn written_field(record: Seq<char>, count: int, position: int, key: Seq<char>) -> Option<
    Seq<char>,
> {
    match parsing::raw_members(record) {
        Some(pairs) => parsing::beside(pairs, key),
        None => match parsing::raw_elements(record) {
            Some(elements) => if elements.len() == count && 0 <= position < count {
                Some(elements[position])
            } else {
                None
            },
            None => None,
        },
    }
}

/// A value that is not written as an object.
pub open spec fn simple(written: Seq<char>) -> Option<JsonTree> {
    if parts::stands_at(written, "{"@, 0) {
        None
    } else {
        parsing::parsed(written)
    }
}

/// The text that a field is.
pub open spec fn text_in(written: Option<Seq<char>>) -> Option<Seq<char>> {
    match written {
        Some(written) => match simple(written) {
            Some(JsonTree::Text(text)) => Some(text),
            _ => None,
        },
        None => None,
    }
}

/// The number that a field is, where it is not over `limit`.
pub open spec fn number_in(written: Option<Seq<char>>, limit: u64) -> Option<u64> {
    match written {
        Some(written) => match simple(written) {
            Some(JsonTree::Number(_, Some(n))) => if n <= limit {
                Some(n)
            } else {
                None
            },
            _ => None,
        },
        None => None,
    }
}

/// Whether each element is a text.
pub open spec fn are_texts(elements: Seq<Seq<char>>) -> bool {
    forall|i: int| 0 <= i < elements.len() ==> text_in(Some(#[trigger] elements[i])) is Some
}

/// The texts that elements are.
pub open spec fn element_texts(elements: Seq<Seq<char>>) -> Seq<Seq<char>> {
    Seq::new(elements.len(), |i: int| text_in(Some(elements[i]))->0)
}

/// The texts that a field lists.
pub open spec fn texts_in(written: Option<Seq<char>>) -> Option<Seq<Seq<char>>> {
    match written {
        Some(written) => match parsing::raw_elements(written) {
            Some(elements) => if are_texts(elements) {
                Some(element_texts(elements))
            } else {
                None
            },
            None => None,
        },
        None => None,
    }
}

/// The text that a member is, or its absence where the member is null; `None` where it is something
/// else.
pub open spec fn optional_in(written: Option<Seq<char>>) -> Option<Option<Seq<char>>> {
    match written {
        Some(written) => match simple(written) {
            Some(JsonTree::Null) => Some(None),
            Some(JsonTree::Text(text)) => Some(Some(text)),
            _ => None,
        },
        None => None,
    }
}

/// The recognition that an element is.
pub open spec fn recognition_in(element: Seq<char>) -> Option<RecognitionView> {
    match (
        optional_in(parsing::raw_member(element, "kind"@)),
        optional_in(parsing::raw_member(element, "sha256"@)),
    ) {
        (Some(kind), Some(sha256)) => Some(RecognitionView { kind, sha256 }),
        _ => None,
    }
}

/// Whether each element is a recognition.
pub open spec fn are_recognitions(elements: Seq<Seq<char>>) -> bool {
    forall|i: int| 0 <= i < elements.len() ==> recognition_in(#[trigger] elements[i]) is Some
}

/// The recognitions that elements are.
pub open spec fn element_recognitions(elements: Seq<Seq<char>>) -> Seq<RecognitionView> {
    Seq::new(elements.len(), |i: int| recognition_in(elements[i])->0)
}

/// The recognitions that a field lists.
pub open spec fn recognitions_in(written: Option<Seq<char>>) -> Option<Seq<RecognitionView>> {
    match written {
        Some(written) => match parsing::raw_elements(written) {
            Some(elements) => if are_recognitions(elements) {
                Some(element_recognitions(elements))
            } else {
                None
            },
            None => None,
        },
        None => None,
    }
}

/// Whether a text that was encoded is read back.
pub open spec fn keeps_text(written: Option<Seq<char>>) -> bool {
    forall|original: Seq<char>|
        written == Some(#[trigger] encoding::encoded(JsonTree::Text(original))) ==> text_in(written)
            == Some(original)
}

/// Whether a number that was encoded is read back.
pub open spec fn keeps_number(written: Option<Seq<char>>, limit: u64) -> bool {
    forall|original: u64|
        original <= limit && written == Some(
            encoding::encoded(#[trigger] request::number_tree(original)),
        ) ==> number_in(written, limit) == Some(original)
}

/// Whether texts that were encoded are read back.
pub open spec fn keeps_texts(written: Option<Seq<char>>) -> bool {
    forall|originals: Seq<Seq<char>>|
        written == Some(
            encoding::encoded(JsonTree::Array(#[trigger] sidecar::quoted_texts(originals))),
        ) ==> texts_in(written) == Some(originals)
}

/// Whether an optional text that was encoded is read back.
spec fn keeps_optional(written: Option<Seq<char>>) -> bool {
    forall|original: Option<Seq<char>>|
        written == Some(encoding::encoded(#[trigger] sidecar::optional_tree(original)))
            ==> optional_in(written) == Some(original)
}

/// Whether a recognition that was encoded is read back.
spec fn keeps_recognition(element: Seq<char>) -> bool {
    forall|original: RecognitionView|
        element == encoding::encoded(#[trigger] sidecar::recognition_tree(original))
            ==> recognition_in(element) == Some(original)
}

/// Whether recognitions that were encoded are read back.
pub open spec fn keeps_recognitions(written: Option<Seq<char>>) -> bool {
    forall|originals: Seq<RecognitionView>|
        written == Some(
            encoding::encoded(JsonTree::Array(#[trigger] sidecar::recognition_trees(originals))),
        ) ==> recognitions_in(written) == Some(originals)
}

/// The encoding of a value that is no object does not begin with a brace.
proof fn lemma_simple_encoding(value: JsonTree)
    requires
        value is Null || value is Text || value is Number,
        encoding::has_json_numbers(value),
    ensures
        !parts::stands_at(encoding::encoded(value), "{"@, 0),
{
    reveal_strlit("{");
    reveal_strlit("null");
    let written = encoding::encoded(value);
    if value is Number {
        decimal::lemma_number_chars(written);
    }
    if parts::stands_at(written, "{"@, 0) {
        assert(written.subrange(0, 1)[0] == '{');
    }
}

/// A value that is not written as an object.
pub(crate) fn read_simple(written: &str) -> (value: Option<Json>)
    ensures
        match value {
            Some(value) => simple(written@) == Some(value@),
            None => simple(written@) is None,
        },
        forall|original: JsonTree|
            written@ == #[trigger] encoding::encoded(original) && (original is Null
                || original is Text || original is Number) && encoding::has_json_numbers(original)
                && parsing::is_plain(original, parsing::max_levels()) ==> simple(written@) == Some(
                original,
            ),
{
    let value = parse_json(written);
    let braced = begins_with(written, "{");
    proof {
        assert forall|original: JsonTree|
            written@ == #[trigger] encoding::encoded(original) && (original is Null
                || original is Text || original is Number) && encoding::has_json_numbers(original)
                && parsing::is_plain(original, parsing::max_levels()) implies simple(written@)
            == Some(original) by {
            lemma_simple_encoding(original);
            assert(canonical::canonical(original) == original);
        }
    }
    if braced {
        None
    } else {
        value
    }
}

/// The text that an element is.
fn read_text_element(element: &str) -> (text: Option<String>)
    ensures
        text::optional_text(text) == text_in(Some(element@)),
        keeps_text(Some(element@)),
{
    match read_simple(element) {
        Some(Json::Text(text)) => Some(text),
        _ => None,
    }
}

/// The text that a field is.
pub(crate) fn read_text(written: &Option<String>) -> (text: Option<String>)
    ensures
        text::optional_text(text) == text_in(text::optional_text(*written)),
        keeps_text(text::optional_text(*written)),
{
    match written {
        Some(written) => read_text_element(written.as_str()),
        None => None,
    }
}

/// The number that a field is, where it is not over `limit`.
pub(crate) fn read_number(written: &Option<String>, limit: u64) -> (number: Option<u64>)
    ensures
        number == number_in(text::optional_text(*written), limit),
        keeps_number(text::optional_text(*written), limit),
{
    let written = match written {
        Some(written) => written,
        None => {
            return None;
        },
    };
    let value = read_simple(written.as_str());
    proof {
        assert forall|original: u64|
            original <= limit && Some(written@) == Some(
                encoding::encoded(#[trigger] request::number_tree(original)),
            ) implies number_in(Some(written@), limit) == Some(original) by {
            decimal::lemma_decimal_is_number(original as nat);
        }
    }
    match value {
        Some(Json::Number { text: _, unsigned: Some(n) }) => if n <= limit {
            Some(n)
        } else {
            None
        },
        _ => None,
    }
}

/// The elements of the encoding of an array.
proof fn lemma_elements(written: Seq<char>, items: Seq<JsonTree>)
    requires
        parsing::tells_elements(written, parsing::raw_elements(written)),
        written == encoding::encoded(JsonTree::Array(items)),
        forall|i: int|
            0 <= i < items.len() ==> encoding::has_json_numbers(#[trigger] items[i]),
    ensures
        parsing::raw_elements(written) matches Some(elements) && elements.len() == items.len()
            && forall|i: int|
            0 <= i < items.len() ==> #[trigger] elements[i] == encoding::encoded(items[i]),
{
    assert(encoding::has_json_numbers(JsonTree::Array(items)));
    encoding::lemma_all_encoded(items);
}

/// The texts that a field lists.
pub(crate) fn read_texts(written: &Option<String>) -> (texts: Option<Vec<String>>)
    ensures
        parsing::optional_texts(texts) == texts_in(text::optional_text(*written)),
        keeps_texts(text::optional_text(*written)),
{
    broadcast use text::lemma_texts_push;

    let field = match written {
        Some(field) => field,
        None => {
            return None;
        },
    };
    let found = read_raw_elements(field.as_str());
    let ghost told = parsing::raw_elements(field@);
    proof {
        assert forall|originals: Seq<Seq<char>>|
            field@ == encoding::encoded(
                JsonTree::Array(#[trigger] sidecar::quoted_texts(originals)),
            ) implies told matches Some(elements) && elements.len() == originals.len() && forall|
            i: int,
        |
            0 <= i < originals.len() ==> #[trigger] elements[i] == encoding::encoded(
                JsonTree::Text(originals[i]),
            ) by {
            lemma_elements(field@, sidecar::quoted_texts(originals));
        }
    }
    let elements = match found {
        Some(elements) => elements,
        None => {
            return None;
        },
    };
    let ghost held = text::texts(elements@);
    let mut texts: Vec<String> = Vec::new();
    let mut i: usize = 0;
    while i < elements.len()
        invariant
            i <= elements@.len(),
            held == text::texts(elements@),
            text::optional_text(*written) == Some(field@),
            told == Some(held),
            told == parsing::raw_elements(field@),
            text::texts(texts@) == element_texts(held).take(i as int),
            forall|j: int| 0 <= j < i ==> text_in(Some(#[trigger] held[j])) is Some,
            forall|j: int| 0 <= j < i ==> keeps_text(Some(#[trigger] held[j])),
            forall|originals: Seq<Seq<char>>|
                field@ == encoding::encoded(
                    JsonTree::Array(#[trigger] sidecar::quoted_texts(originals)),
                ) ==> held.len() == originals.len() && forall|j: int|
                    0 <= j < originals.len() ==> #[trigger] held[j] == encoding::encoded(
                        JsonTree::Text(originals[j]),
                    ),
        decreases elements@.len() - i,
    {
        assert(held[i as int] == elements@[i as int]@);
        match read_text_element(elements[i].as_str()) {
            Some(text) => {
                texts.push(text);
            },
            None => {
                assert(text_in(Some(held[i as int])) is None);
                return None;
            },
        }
        i = i + 1;
        assert(element_texts(held).take(i as int) =~= element_texts(held).take(i - 1).push(
            element_texts(held)[i - 1],
        ));
    }
    assert(element_texts(held).take(i as int) =~= element_texts(held));
    assert(are_texts(held));
    assert forall|originals: Seq<Seq<char>>|
        field@ == encoding::encoded(
            JsonTree::Array(#[trigger] sidecar::quoted_texts(originals)),
        ) implies element_texts(held) == originals by {
        assert forall|j: int| 0 <= j < held.len() implies element_texts(held)[j]
            == originals[j] by {
            assert(keeps_text(Some(held[j])));
        }
        assert(element_texts(held) =~= originals);
    }
    Some(texts)
}

/// The text that a member is, or its absence where the member is null.
fn read_optional(written: &Option<String>) -> (text: Option<Option<String>>)
    ensures
        match text {
            Some(text) => optional_in(text::optional_text(*written)) == Some(
                text::optional_text(text),
            ),
            None => optional_in(text::optional_text(*written)) is None,
        },
        keeps_optional(text::optional_text(*written)),
{
    let written = match written {
        Some(written) => written,
        None => {
            return None;
        },
    };
    match read_simple(written.as_str()) {
        Some(Json::Null) => Some(None),
        Some(Json::Text(text)) => Some(Some(text)),
        _ => None,
    }
}

/// A recognition holds no number.
pub(crate) proof fn lemma_recognition_numbers(original: RecognitionView)
    ensures
        encoding::has_json_numbers(sidecar::recognition_tree(original)),
{
    let members = sidecar::recognition_tree(original)->Object_0;
    assert forall|i: int| 0 <= i < members.len() implies encoding::has_json_numbers(
        (#[trigger] members[i]).value,
    ) by {}
    assert(sidecar::recognition_tree(original) == JsonTree::Object(members));
}

/// The members of the encoding of a recognition.
proof fn lemma_recognition_members(element: Seq<char>, original: RecognitionView)
    requires
        parsing::tells_members(element, parsing::raw_members(element)),
        element == encoding::encoded(sidecar::recognition_tree(original)),
    ensures
        parsing::raw_member(element, "kind"@) == Some(
            encoding::encoded(sidecar::optional_tree(original.kind)),
        ),
        parsing::raw_member(element, "sha256"@) == Some(
            encoding::encoded(sidecar::optional_tree(original.sha256)),
        ),
{
    reveal_strlit("kind");
    reveal_strlit("sha256");
    let members = sidecar::recognition_tree(original)->Object_0;
    assert(sidecar::recognition_tree(original) == JsonTree::Object(members));
    assert(members[0].key.len() == 4 && members[1].key.len() == 6);
    lemma_recognition_numbers(original);
    assert(keys::are_distinct(members));
    keys::lemma_lookup_distinct(members, 0);
    keys::lemma_lookup_distinct(members, 1);
    parsing::lemma_beside_encoding(members, "kind"@);
    parsing::lemma_beside_encoding(members, "sha256"@);
}

/// The recognition that an element is.
fn read_recognition(element: &str) -> (recognition: Option<Recognition>)
    ensures
        match recognition {
            Some(recognition) => recognition_in(element@) == Some(recognition@),
            None => recognition_in(element@) is None,
        },
        keeps_recognition(element@),
{
    let members = read_raw_members(element);
    let (kind, sha256) = match &members {
        Some(pairs) => (find_beside(pairs, "kind"), find_beside(pairs, "sha256")),
        None => (None, None),
    };
    let kind = read_optional(&kind);
    let sha256 = read_optional(&sha256);
    proof {
        assert forall|original: RecognitionView|
            element@ == encoding::encoded(
                #[trigger] sidecar::recognition_tree(original),
            ) implies recognition_in(element@) == Some(original) by {
            lemma_recognition_members(element@, original);
        }
    }
    Some(Recognition { kind: kind?, sha256: sha256? })
}

/// The recognitions that a field lists.
pub(crate) fn read_recognitions(written: &Option<String>) -> (recognitions: Option<
    Vec<Recognition>,
>)
    ensures
        match recognitions {
            Some(recognitions) => recognitions_in(text::optional_text(*written)) == Some(
                recognition::views(recognitions@),
            ),
            None => recognitions_in(text::optional_text(*written)) is None,
        },
        keeps_recognitions(text::optional_text(*written)),
{
    broadcast use recognition::lemma_views_push;

    let field = match written {
        Some(field) => field,
        None => {
            return None;
        },
    };
    let found = read_raw_elements(field.as_str());
    let ghost told = parsing::raw_elements(field@);
    proof {
        assert forall|originals: Seq<RecognitionView>|
            field@ == encoding::encoded(
                JsonTree::Array(#[trigger] sidecar::recognition_trees(originals)),
            ) implies told matches Some(elements) && elements.len() == originals.len() && forall|
            i: int,
        |
            0 <= i < originals.len() ==> #[trigger] elements[i] == encoding::encoded(
                sidecar::recognition_tree(originals[i]),
            ) by {
            let items = sidecar::recognition_trees(originals);
            assert forall|i: int| 0 <= i < items.len() implies encoding::has_json_numbers(
                #[trigger] items[i],
            ) by {
                lemma_recognition_numbers(originals[i]);
            }
            lemma_elements(field@, items);
        }
    }
    let elements = match found {
        Some(elements) => elements,
        None => {
            return None;
        },
    };
    let ghost held = text::texts(elements@);
    let mut recognitions: Vec<Recognition> = Vec::new();
    let mut i: usize = 0;
    while i < elements.len()
        invariant
            i <= elements@.len(),
            held == text::texts(elements@),
            text::optional_text(*written) == Some(field@),
            told == Some(held),
            told == parsing::raw_elements(field@),
            recognition::views(recognitions@) == element_recognitions(held).take(i as int),
            forall|j: int| 0 <= j < i ==> recognition_in(#[trigger] held[j]) is Some,
            forall|j: int| 0 <= j < i ==> keeps_recognition(#[trigger] held[j]),
            forall|originals: Seq<RecognitionView>|
                field@ == encoding::encoded(
                    JsonTree::Array(#[trigger] sidecar::recognition_trees(originals)),
                ) ==> held.len() == originals.len() && forall|j: int|
                    0 <= j < originals.len() ==> #[trigger] held[j] == encoding::encoded(
                        sidecar::recognition_tree(originals[j]),
                    ),
        decreases elements@.len() - i,
    {
        assert(held[i as int] == elements@[i as int]@);
        match read_recognition(elements[i].as_str()) {
            Some(recognition) => {
                recognitions.push(recognition);
            },
            None => {
                assert(recognition_in(held[i as int]) is None);
                return None;
            },
        }
        i = i + 1;
        assert(element_recognitions(held).take(i as int) =~= element_recognitions(held).take(
            i - 1,
        ).push(element_recognitions(held)[i - 1]));
    }
    assert(element_recognitions(held).take(i as int) =~= element_recognitions(held));
    assert(are_recognitions(held));
    assert forall|originals: Seq<RecognitionView>|
        field@ == encoding::encoded(
            JsonTree::Array(#[trigger] sidecar::recognition_trees(originals)),
        ) implies element_recognitions(held) == originals by {
        assert forall|j: int| 0 <= j < held.len() implies element_recognitions(held)[j]
            == originals[j] by {
            assert(keeps_recognition(held[j]));
        }
        assert(element_recognitions(held) =~= originals);
    }
    Some(recognitions)
}

/// A record as it was read: its members where it is an object, and its elements where it is an
/// array, each as it is written.
pub(crate) struct Record {
    members: Option<Vec<(String, String)>>,
    elements: Option<Vec<String>>,
}

impl Record {
    /// Whether this is the record that `text` is.
    pub closed spec fn is_of(self, text: Seq<char>) -> bool {
        &&& parsing::optional_pairs(self.members) == parsing::raw_members(text)
        &&& self.members is None ==> parsing::optional_texts(self.elements)
            == parsing::raw_elements(text)
    }

    /// The record that `text` is.
    pub(crate) fn read(text: &str) -> (record: Record)
        ensures
            record.is_of(text@),
            parsing::tells_members(text@, parsing::raw_members(text@)),
    {
        match read_raw_members(text) {
            Some(members) => Record { members: Some(members), elements: None },
            None => Record { members: None, elements: read_raw_elements(text) },
        }
    }

    /// Whether the record is an object.
    pub(crate) fn is_object(&self, Ghost(text): Ghost<Seq<char>>) -> (object: bool)
        requires
            self.is_of(text),
        ensures
            object == parsing::raw_members(text) is Some,
    {
        self.members.is_some()
    }

    /// How a field is written.
    pub(crate) fn find(
        &self,
        count: usize,
        position: usize,
        key: &str,
        Ghost(text): Ghost<Seq<char>>,
    ) -> (written: Option<String>)
        requires
            self.is_of(text),
        ensures
            text::optional_text(written) == written_field(
                text,
                count as int,
                position as int,
                key@,
            ),
    {
        match &self.members {
            Some(pairs) => find_beside(pairs, key),
            None => match &self.elements {
                Some(elements) => if elements.len() == count && position < count {
                    Some(elements[position].clone())
                } else {
                    None
                },
                None => None,
            },
        }
    }
}

/// Whether two fields are written alike.
pub(crate) fn same_written(a: &Option<String>, b: &Option<String>) -> (same: bool)
    ensures
        same == (text::optional_text(*a) == text::optional_text(*b)),
{
    match (a, b) {
        (Some(a), Some(b)) => same_text(a.as_str(), b.as_str()),
        (None, None) => true,
        _ => false,
    }
}

/// A pair is found by its key: the last with that key.
proof fn lemma_beside(pairs: Seq<(Seq<char>, Seq<char>)>, key: Seq<char>, at: int)
    requires
        0 <= at < pairs.len(),
        pairs[at].0 == key,
        forall|i: int| at < i < pairs.len() ==> (#[trigger] pairs[i]).0 != key,
    ensures
        parsing::beside(pairs, key) == Some(pairs[at].1),
    decreases pairs.len(),
{
    if at < pairs.len() - 1 {
        assert(pairs[pairs.len() - 1].0 != key);
        let front = pairs.drop_last();
        assert forall|i: int| at < i < front.len() implies (#[trigger] front[i]).0 != key by {
            assert(front[i] == pairs[i]);
        }
        lemma_beside(front, key, at);
    }
}

/// A key that no pair has finds nothing.
proof fn lemma_nothing_beside(pairs: Seq<(Seq<char>, Seq<char>)>, key: Seq<char>)
    requires
        forall|i: int| 0 <= i < pairs.len() ==> (#[trigger] pairs[i]).0 != key,
    ensures
        parsing::beside(pairs, key) is None,
    decreases pairs.len(),
{
    if pairs.len() > 0 {
        let front = pairs.drop_last();
        assert(pairs[pairs.len() - 1].0 != key);
        assert forall|i: int| 0 <= i < front.len() implies (#[trigger] front[i]).0 != key by {
            assert(front[i] == pairs[i]);
        }
        lemma_nothing_beside(front, key);
    }
}

/// A field of an object is its member with that key, the last of several; of a list with one element
/// for each field it is the element at its place. A list with more or fewer elements has no fields.
pub proof fn law_fields_are_found_by_key_or_place(
    record: Seq<char>,
    count: int,
    position: int,
    key: Seq<char>,
    at: int,
)
    requires
        0 <= position < count,
    ensures
        parsing::raw_members(record) matches Some(pairs) ==> {
            &&& (0 <= at < pairs.len() && pairs[at].0 == key && forall|i: int|
                at < i < pairs.len() ==> (#[trigger] pairs[i]).0 != key) ==> written_field(
                record,
                count,
                position,
                key,
            ) == Some(pairs[at].1)
            &&& (forall|i: int| 0 <= i < pairs.len() ==> (#[trigger] pairs[i]).0 != key)
                ==> written_field(record, count, position, key) is None
        },
        parsing::raw_members(record) is None ==> {
            &&& parsing::raw_elements(record) is None ==> written_field(
                record,
                count,
                position,
                key,
            ) is None
            &&& parsing::raw_elements(record) matches Some(elements) ==> {
                &&& elements.len() == count ==> written_field(record, count, position, key) == Some(
                    elements[position],
                )
                &&& elements.len() != count ==> written_field(record, count, position, key) is None
            }
        },
{
    if let Some(pairs) = parsing::raw_members(record) {
        if 0 <= at < pairs.len() && pairs[at].0 == key && (forall|i: int|
            at < i < pairs.len() ==> (#[trigger] pairs[i]).0 != key) {
            lemma_beside(pairs, key, at);
        }
        if forall|i: int| 0 <= i < pairs.len() ==> (#[trigger] pairs[i]).0 != key {
            lemma_nothing_beside(pairs, key);
        }
    }
}

/// A field is a text, a number or a list as it is written, and is none where it is written as
/// something else; what begins with a brace is an object and no text and no number.
pub proof fn law_fields_are_what_is_written(
    written: Seq<char>,
    text: Seq<char>,
    n: u64,
    limit: u64,
    texts: Seq<Seq<char>>,
)
    ensures
        text_in(None) is None && number_in(None, limit) is None && texts_in(None) is None
            && recognitions_in(None) is None,
        text_in(Some(written)) == Some(text) <==> (written.len() == 0 || written[0] != '{')
            && parsing::parsed(written) == Some(JsonTree::Text(text)),
        number_in(Some(written), limit) == Some(n) <==> (written.len() == 0 || written[0] != '{')
            && n <= limit && (parsing::parsed(written) matches Some(value)
            && value matches JsonTree::Number(_, Some(m)) && m == n),
        texts_in(Some(written)) == Some(texts) <==> (parsing::raw_elements(written) matches Some(
            elements,
        ) && elements.len() == texts.len() && forall|i: int|
            0 <= i < elements.len() ==> text_in(Some(#[trigger] elements[i])) == Some(texts[i])),
{
    reveal_strlit("{");
    assert("{"@.len() == 1 && "{"@[0] == '{');
    if written.len() > 0 {
        assert(written.subrange(0, 1)[0] == written[0]);
        if written[0] == '{' {
            assert(written.subrange(0, 1) =~= "{"@);
        }
    }
    if let Some(elements) = parsing::raw_elements(written) {
        if are_texts(elements) {
            if element_texts(elements) == texts {
                assert forall|i: int| 0 <= i < elements.len() implies text_in(
                    Some(#[trigger] elements[i]),
                ) == Some(texts[i]) by {
                    assert(element_texts(elements)[i] == texts[i]);
                }
            }
        }
        if elements.len() == texts.len() && forall|i: int|
            0 <= i < elements.len() ==> text_in(Some(#[trigger] elements[i])) == Some(texts[i]) {
            assert(element_texts(elements) =~= texts);
        }
    }
}

/// A recognition is written with a kind and a digest, each a text or null.
pub proof fn law_recognitions_are_read_by_kind_and_digest(element: Seq<char>, read: RecognitionView)
    ensures
        recognition_in(element) == Some(read) ==> {
            &&& parsing::raw_member(element, "kind"@) matches Some(kind)
            &&& parsing::raw_member(element, "sha256"@) matches Some(sha256)
            &&& read.kind matches Some(text) ==> parsing::parsed(kind) == Some(JsonTree::Text(text))
            &&& read.kind is None ==> parsing::parsed(kind) == Some(JsonTree::Null)
            &&& read.sha256 matches Some(text) ==> parsing::parsed(sha256) == Some(
                JsonTree::Text(text),
            )
            &&& read.sha256 is None ==> parsing::parsed(sha256) == Some(JsonTree::Null)
        },
        parsing::raw_member(element, "kind"@) is None ==> recognition_in(element) is None,
        parsing::raw_member(element, "sha256"@) is None ==> recognition_in(element) is None,
{
}

}
