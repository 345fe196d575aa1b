//! Reading a sidecar back.

use vstd::prelude::*;
use vstd::string::*;

use crate::decimal;
use crate::digest;
use crate::encoding;
use crate::error::{InlineCompactionError, IoFailure, IoKind};
use crate::fields::{
    read_number, read_recognitions, read_text, read_texts, same_written, Record,
};
use crate::fields;
use crate::json::{JsonTree, MemberTree};
use crate::keys::{is_key_repeated, written_keys};
use crate::keys;
use crate::marking::mark_text;
use crate::marking;
use crate::parsing;
use crate::sidecar::{
    inspect_sidecar, open_sidecar, EnvelopeView, FileFacts, SidecarEnvelope, SidecarState,
    StateView,
};
use crate::sidecar;
use crate::text::{same_text, same_texts};
use crate::text;

verus! {

/// How many fields a state has.
pub const STATE_FIELDS: usize = 15;

/// How many fields a sidecar has.
pub const ENVELOPE_FIELDS: usize = 2;

/// How a field of a state is written.
pub open spec fn state_field(record: Seq<char>, position: int, key: Seq<char>) -> Option<
    Seq<char>,
> {
    fields::written_field(record, STATE_FIELDS as int, position, key)
}

/// How a field of a sidecar is written.
pub open spec fn envelope_field(contents: Seq<char>, position: int, key: Seq<char>) -> Option<
    Seq<char>,
> {
    fields::written_field(contents, ENVELOPE_FIELDS as int, position, key)
}

/// Whether a record has the fields of a state.
pub open spec fn has_state_fields(record: Seq<char>) -> bool {
    &&& fields::number_in(state_field(record, 0, "version"@), u32::MAX as u64) is Some
    &&& fields::text_in(state_field(record, 1, "lane_hash"@)) is Some
    &&& fields::text_in(state_field(record, 2, "model"@)) is Some
    &&& fields::text_in(state_field(record, 3, "semantic_fingerprint"@)) is Some
    &&& fields::number_in(state_field(record, 4, "compact_threshold"@), u64::MAX) is Some
    &&& fields::number_in(state_field(record, 5, "source_prefix_count"@), usize::MAX as u64) is Some
    &&& fields::text_in(state_field(record, 6, "source_prefix_sha256"@)) is Some
    &&& fields::recognitions_in(state_field(record, 7, "last_output_match"@)) is Some
    &&& fields::text_in(state_field(record, 8, "compaction_item_json"@)) is Some
    &&& fields::text_in(state_field(record, 9, "compaction_item_sha256"@)) is Some
    &&& fields::text_in(state_field(record, 10, "opaque_sha256"@)) is Some
    &&& fields::texts_in(state_field(record, 11, "raw_suffix_json"@)) is Some
    &&& fields::text_in(state_field(record, 12, "raw_suffix_sha256"@)) is Some
    &&& fields::number_in(state_field(record, 13, "usage_input_tokens"@), u64::MAX) is Some
    &&& fields::number_in(state_field(record, 14, "updated_at_ms"@), u64::MAX) is Some
}

/// The state that a record is.
pub open spec fn state_in(record: Seq<char>) -> Option<StateView> {
    if has_state_fields(record) {
        Some(
            StateView {
                version: fields::number_in(
                    state_field(record, 0, "version"@),
                    u32::MAX as u64,
                )->0 as u32,
                lane_hash: fields::text_in(state_field(record, 1, "lane_hash"@))->0,
                model: fields::text_in(state_field(record, 2, "model"@))->0,
                semantic_fingerprint: fields::text_in(
                    state_field(record, 3, "semantic_fingerprint"@),
                )->0,
                compact_threshold: fields::number_in(
                    state_field(record, 4, "compact_threshold"@),
                    u64::MAX,
                )->0,
                source_prefix_count: fields::number_in(
                    state_field(record, 5, "source_prefix_count"@),
                    usize::MAX as u64,
                )->0 as usize,
                source_prefix_sha256: fields::text_in(
                    state_field(record, 6, "source_prefix_sha256"@),
                )->0,
                last_output_match: fields::recognitions_in(
                    state_field(record, 7, "last_output_match"@),
                )->0,
                compaction_item_json: fields::text_in(
                    state_field(record, 8, "compaction_item_json"@),
                )->0,
                compaction_item_sha256: fields::text_in(
                    state_field(record, 9, "compaction_item_sha256"@),
                )->0,
                opaque_sha256: fields::text_in(state_field(record, 10, "opaque_sha256"@))->0,
                raw_suffix_json: fields::texts_in(state_field(record, 11, "raw_suffix_json"@))->0,
                raw_suffix_sha256: fields::text_in(
                    state_field(record, 12, "raw_suffix_sha256"@),
                )->0,
                usage_input_tokens: fields::number_in(
                    state_field(record, 13, "usage_input_tokens"@),
                    u64::MAX,
                )->0,
                updated_at_ms: fields::number_in(
                    state_field(record, 14, "updated_at_ms"@),
                    u64::MAX,
                )->0,
            },
        )
    } else {
        None
    }
}

/// Whether an object is written with a field of a state more than once.
pub open spec fn repeats_field(object: Seq<char>) -> bool {
    ||| keys::is_repeated(object, "version"@)
    ||| keys::is_repeated(object, "lane_hash"@)
    ||| keys::is_repeated(object, "model"@)
    ||| keys::is_repeated(object, "semantic_fingerprint"@)
    ||| keys::is_repeated(object, "compact_threshold"@)
    ||| keys::is_repeated(object, "source_prefix_count"@)
    ||| keys::is_repeated(object, "source_prefix_sha256"@)
    ||| keys::is_repeated(object, "last_output_match"@)
    ||| keys::is_repeated(object, "compaction_item_json"@)
    ||| keys::is_repeated(object, "compaction_item_sha256"@)
    ||| keys::is_repeated(object, "opaque_sha256"@)
    ||| keys::is_repeated(object, "raw_suffix_json"@)
    ||| keys::is_repeated(object, "raw_suffix_sha256"@)
    ||| keys::is_repeated(object, "usage_input_tokens"@)
    ||| keys::is_repeated(object, "updated_at_ms"@)
}

/// Whether a sidecar is written with a field more than once. `record` is how its state is written.
pub open spec fn repeats_any(contents: Seq<char>, record: Seq<char>) -> bool {
    ||| parsing::raw_members(contents) is Some && (keys::is_repeated(contents, "state"@)
        || keys::is_repeated(contents, "state_sha256"@))
    ||| parsing::raw_members(record) is Some && repeats_field(record)
}

/// The sidecar that a text is, where it is one.
pub open spec fn envelope_in(contents: Seq<char>) -> Option<EnvelopeView> {
    match (
        envelope_field(contents, 0, "state"@),
        fields::text_in(envelope_field(contents, 1, "state_sha256"@)),
    ) {
        (Some(record), Some(state_sha256)) => if repeats_any(contents, record) {
            None
        } else {
            match state_in(record) {
                Some(state) => Some(EnvelopeView { state, state_sha256 }),
                None => None,
            }
        },
        _ => None,
    }
}

/// Whether two records are written with the same keys, where the first is an object.
pub open spec fn keys_agree(a: Seq<char>, b: Seq<char>) -> bool {
    parsing::raw_members(a) is Some ==> keys::walked(a).keys == keys::walked(b).keys
}

/// Whether two states are written with the same fields.
pub open spec fn fields_agree(a: Seq<char>, b: Seq<char>) -> bool {
    &&& state_field(a, 0, "version"@) == state_field(b, 0, "version"@)
    &&& state_field(a, 1, "lane_hash"@) == state_field(b, 1, "lane_hash"@)
    &&& state_field(a, 2, "model"@) == state_field(b, 2, "model"@)
    &&& state_field(a, 3, "semantic_fingerprint"@) == state_field(b, 3, "semantic_fingerprint"@)
    &&& state_field(a, 4, "compact_threshold"@) == state_field(b, 4, "compact_threshold"@)
    &&& state_field(a, 5, "source_prefix_count"@) == state_field(b, 5, "source_prefix_count"@)
    &&& state_field(a, 6, "source_prefix_sha256"@) == state_field(b, 6, "source_prefix_sha256"@)
    &&& state_field(a, 7, "last_output_match"@) == state_field(b, 7, "last_output_match"@)
    &&& state_field(a, 8, "compaction_item_json"@) == state_field(b, 8, "compaction_item_json"@)
    &&& state_field(a, 9, "compaction_item_sha256"@) == state_field(b, 9, "compaction_item_sha256"@)
    &&& state_field(a, 10, "opaque_sha256"@) == state_field(b, 10, "opaque_sha256"@)
    &&& state_field(a, 11, "raw_suffix_json"@) == state_field(b, 11, "raw_suffix_json"@)
    &&& state_field(a, 12, "raw_suffix_sha256"@) == state_field(b, 12, "raw_suffix_sha256"@)
    &&& state_field(a, 13, "usage_input_tokens"@) == state_field(b, 13, "usage_input_tokens"@)
    &&& state_field(a, 14, "updated_at_ms"@) == state_field(b, 14, "updated_at_ms"@)
}

/// Whether two texts are written with the same keys and the same fields, as sidecars. They may
/// differ in members that are no fields.
pub open spec fn sidecars_agree(a: Seq<char>, b: Seq<char>) -> bool {
    match (envelope_field(a, 0, "state"@), envelope_field(b, 0, "state"@)) {
        (Some(record), Some(other)) => {
            &&& keys_agree(a, b)
            &&& envelope_field(a, 1, "state_sha256"@) == envelope_field(b, 1, "state_sha256"@)
            &&& keys_agree(record, other)
            &&& fields_agree(record, other)
        },
        _ => false,
    }
}

/// The sidecar that the contents of a file are, where they are one. Bytes that are no UTF-8 may
/// stand in the strings of members that are no fields, and nowhere else: with one mark in their
/// place or with another, the keys and the fields are the same.
pub open spec fn sidecar_in(contents: Seq<u8>) -> Option<EnvelopeView> {
    let text = marking::marked(contents, '?');
    let other = marking::marked(contents, '!');
    if text == other || sidecars_agree(text, other) {
        envelope_in(text)
    } else {
        None
    }
}

/// The fields of a state have distinct names.
proof fn lemma_state_keys(state: StateView)
    ensures
        keys::are_distinct(sidecar::state_tree(state)->Object_0),
{
    reveal_strlit("version");
    reveal_strlit("lane_hash");
    reveal_strlit("model");
    reveal_strlit("semantic_fingerprint");
    reveal_strlit("compact_threshold");
    reveal_strlit("source_prefix_count");
    reveal_strlit("source_prefix_sha256");
    reveal_strlit("last_output_match");
    reveal_strlit("compaction_item_json");
    reveal_strlit("compaction_item_sha256");
    reveal_strlit("opaque_sha256");
    reveal_strlit("raw_suffix_json");
    reveal_strlit("raw_suffix_sha256");
    reveal_strlit("usage_input_tokens");
    reveal_strlit("updated_at_ms");
    let members = sidecar::state_tree(state)->Object_0;
    assert forall|i: int, j: int| 0 <= i < j < members.len() implies (#[trigger] members[i]).key
        != (#[trigger] members[j]).key by {
        let (a, b) = (members[i].key, members[j].key);
        assert(a.len() != b.len() || a[0] != b[0] || a[1] != b[1]);
    }
}

/// The numbers of a state are written as JSON writes them.
proof fn lemma_state_numbers(state: StateView)
    ensures
        encoding::has_json_numbers(sidecar::state_tree(state)),
{
    let members = sidecar::state_tree(state)->Object_0;
    let quoted = sidecar::quoted_texts(state.raw_suffix_json);
    let trees = sidecar::recognition_trees(state.last_output_match);
    decimal::lemma_decimal_is_number(state.version as nat);
    decimal::lemma_decimal_is_number(state.compact_threshold as nat);
    decimal::lemma_decimal_is_number(state.source_prefix_count as nat);
    decimal::lemma_decimal_is_number(state.usage_input_tokens as nat);
    decimal::lemma_decimal_is_number(state.updated_at_ms as nat);
    assert forall|i: int| 0 <= i < quoted.len() implies encoding::has_json_numbers(
        #[trigger] quoted[i],
    ) by {}
    assert forall|i: int| 0 <= i < trees.len() implies encoding::has_json_numbers(
        #[trigger] trees[i],
    ) by {
        fields::lemma_recognition_numbers(state.last_output_match[i]);
    }
    assert(encoding::has_json_numbers(JsonTree::Array(quoted)));
    assert(encoding::has_json_numbers(JsonTree::Array(trees)));
    assert forall|i: int| 0 <= i < STATE_FIELDS implies encoding::has_json_numbers(
        (#[trigger] members[i]).value,
    ) by {}
    assert(sidecar::state_tree(state) == JsonTree::Object(members));
}

/// A sidecar has numbers as JSON writes them, and its fields have distinct names.
proof fn lemma_envelope_fields(state: StateView)
    ensures
        encoding::has_json_numbers(sidecar::envelope_tree(state)),
        keys::are_distinct(sidecar::envelope_tree(state)->Object_0),
{
    reveal_strlit("state");
    reveal_strlit("state_sha256");
    lemma_state_numbers(state);
    let members = sidecar::envelope_tree(state)->Object_0;
    assert(members[0].key.len() == 5 && members[1].key.len() == 12);
    assert forall|i: int| 0 <= i < members.len() implies encoding::has_json_numbers(
        (#[trigger] members[i]).value,
    ) by {}
    assert(sidecar::envelope_tree(state) == JsonTree::Object(members));
}

/// The member at position `i` of an object with distinct keys is written as its encoding.
proof fn lemma_written_member(object: Seq<char>, members: Seq<MemberTree>, count: int, i: int)
    requires
        object == encoding::encoded(JsonTree::Object(members)),
        encoding::has_json_numbers(JsonTree::Object(members)),
        parsing::tells_members(object, parsing::raw_members(object)),
        keys::are_distinct(members),
        0 <= i < members.len(),
    ensures
        parsing::raw_members(object) is Some,
        fields::written_field(object, count, i, members[i].key) == Some(
            encoding::encoded(members[i].value),
        ),
{
    keys::lemma_lookup_distinct(members, i);
    parsing::lemma_beside_encoding(members, members[i].key);
}

/// How a field of a state is written.
fn find_field(
    record: &Record,
    position: usize,
    key: &str,
    Ghost(text): Ghost<Seq<char>>,
) -> (written: Option<String>)
    requires
        record.is_of(text),
    ensures
        text::optional_text(written) == state_field(text, position as int, key@),
{
    record.find(STATE_FIELDS, position, key, Ghost(text))
}

/// Whether each field of a state that was encoded is read back.
spec fn keeps_fields(record: Seq<char>) -> bool {
    &&& fields::keeps_number(state_field(record, 0, "version"@), u32::MAX as u64)
    &&& fields::keeps_text(state_field(record, 1, "lane_hash"@))
    &&& fields::keeps_text(state_field(record, 2, "model"@))
    &&& fields::keeps_text(state_field(record, 3, "semantic_fingerprint"@))
    &&& fields::keeps_number(state_field(record, 4, "compact_threshold"@), u64::MAX)
    &&& fields::keeps_number(state_field(record, 5, "source_prefix_count"@), usize::MAX as u64)
    &&& fields::keeps_text(state_field(record, 6, "source_prefix_sha256"@))
    &&& fields::keeps_recognitions(state_field(record, 7, "last_output_match"@))
    &&& fields::keeps_text(state_field(record, 8, "compaction_item_json"@))
    &&& fields::keeps_text(state_field(record, 9, "compaction_item_sha256"@))
    &&& fields::keeps_text(state_field(record, 10, "opaque_sha256"@))
    &&& fields::keeps_texts(state_field(record, 11, "raw_suffix_json"@))
    &&& fields::keeps_text(state_field(record, 12, "raw_suffix_sha256"@))
    &&& fields::keeps_number(state_field(record, 13, "usage_input_tokens"@), u64::MAX)
    &&& fields::keeps_number(state_field(record, 14, "updated_at_ms"@), u64::MAX)
}

/// The field at position `i` of a state that was encoded is the encoding of what it was.
proof fn lemma_written_field(record: Seq<char>, state: StateView, i: int)
    requires
        record == encoding::encoded(sidecar::state_tree(state)),
        parsing::tells_members(record, parsing::raw_members(record)),
        0 <= i < STATE_FIELDS,
    ensures
        state_field(record, i, sidecar::state_tree(state)->Object_0[i].key) == Some(
            encoding::encoded(sidecar::state_tree(state)->Object_0[i].value),
        ),
{
    let members = sidecar::state_tree(state)->Object_0;
    assert(sidecar::state_tree(state) == JsonTree::Object(members));
    lemma_state_keys(state);
    lemma_state_numbers(state);
    lemma_written_member(record, members, STATE_FIELDS as int, i);
}

/// What is read out of a state that was encoded is that state.
proof fn lemma_state_reads_back(record: Seq<char>, state: StateView)
    requires
        record == encoding::encoded(sidecar::state_tree(state)),
        parsing::tells_members(record, parsing::raw_members(record)),
        keeps_fields(record),
    ensures
        state_in(record) == Some(state),
{
    lemma_written_field(record, state, 0);
    lemma_written_field(record, state, 1);
    lemma_written_field(record, state, 2);
    lemma_written_field(record, state, 3);
    lemma_written_field(record, state, 4);
    lemma_written_field(record, state, 5);
    lemma_written_field(record, state, 6);
    lemma_written_field(record, state, 7);
    lemma_written_field(record, state, 8);
    lemma_written_field(record, state, 9);
    lemma_written_field(record, state, 10);
    lemma_written_field(record, state, 11);
    lemma_written_field(record, state, 12);
    lemma_written_field(record, state, 13);
    lemma_written_field(record, state, 14);
    assert(has_state_fields(record));
    assert(state_in(record)->0 =~= state);
}

/// The state that a record is. Out of the encoding of a state comes that state.
fn state_of_record(written: &str) -> (state: Option<SidecarState>)
    ensures
        sidecar::optional_state(state) == state_in(written@),
        forall|encoded: StateView|
            written@ == encoding::encoded(#[trigger] sidecar::state_tree(encoded)) ==> state_in(
                written@,
            ) == Some(encoded),
{
    let record = Record::read(written);
    let version = find_field(&record, 0, "version", Ghost(written@));
    let lane_hash = find_field(&record, 1, "lane_hash", Ghost(written@));
    let model = find_field(&record, 2, "model", Ghost(written@));
    let semantic_fingerprint = find_field(&record, 3, "semantic_fingerprint", Ghost(written@));
    let compact_threshold = find_field(&record, 4, "compact_threshold", Ghost(written@));
    let source_prefix_count = find_field(&record, 5, "source_prefix_count", Ghost(written@));
    let source_prefix_sha256 = find_field(&record, 6, "source_prefix_sha256", Ghost(written@));
    let last_output_match = find_field(&record, 7, "last_output_match", Ghost(written@));
    let compaction_item_json = find_field(&record, 8, "compaction_item_json", Ghost(written@));
    let compaction_item_sha256 = find_field(&record, 9, "compaction_item_sha256", Ghost(written@));
    let opaque_sha256 = find_field(&record, 10, "opaque_sha256", Ghost(written@));
    let raw_suffix_json = find_field(&record, 11, "raw_suffix_json", Ghost(written@));
    let raw_suffix_sha256 = find_field(&record, 12, "raw_suffix_sha256", Ghost(written@));
    let usage_input_tokens = find_field(&record, 13, "usage_input_tokens", Ghost(written@));
    let updated_at_ms = find_field(&record, 14, "updated_at_ms", Ghost(written@));
    let version: Option<u64> = read_number(&version, u32::MAX as u64);
    let lane_hash = read_text(&lane_hash);
    let model = read_text(&model);
    let semantic_fingerprint = read_text(&semantic_fingerprint);
    let compact_threshold: Option<u64> = read_number(&compact_threshold, u64::MAX);
    let source_prefix_count: Option<u64> = read_number(&source_prefix_count, usize::MAX as u64);
    let source_prefix_sha256 = read_text(&source_prefix_sha256);
    let last_output_match = read_recognitions(&last_output_match);
    let compaction_item_json = read_text(&compaction_item_json);
    let compaction_item_sha256 = read_text(&compaction_item_sha256);
    let opaque_sha256 = read_text(&opaque_sha256);
    let raw_suffix_json = read_texts(&raw_suffix_json);
    let raw_suffix_sha256 = read_text(&raw_suffix_sha256);
    let usage_input_tokens: Option<u64> = read_number(&usage_input_tokens, u64::MAX);
    let updated_at_ms: Option<u64> = read_number(&updated_at_ms, u64::MAX);
    proof {
        assert(keeps_fields(written@));
        assert forall|encoded: StateView|
            written@ == encoding::encoded(#[trigger] sidecar::state_tree(encoded)) implies state_in(
            written@,
        ) == Some(encoded) by {
            lemma_state_reads_back(written@, encoded);
        }
    }
    Some(
        SidecarState {
            version: version? as u32,
            lane_hash: lane_hash?,
            model: model?,
            semantic_fingerprint: semantic_fingerprint?,
            compact_threshold: compact_threshold?,
            source_prefix_count: source_prefix_count? as usize,
            source_prefix_sha256: source_prefix_sha256?,
            last_output_match: last_output_match?,
            compaction_item_json: compaction_item_json?,
            compaction_item_sha256: compaction_item_sha256?,
            opaque_sha256: opaque_sha256?,
            raw_suffix_json: raw_suffix_json?,
            raw_suffix_sha256: raw_suffix_sha256?,
            usage_input_tokens: usage_input_tokens?,
            updated_at_ms: updated_at_ms?,
        },
    )
}

/// Whether an object is written with a field of a state more than once. None is in the compact
/// encoding of a state.
fn is_field_repeated(object: &str) -> (repeated: bool)
    ensures
        repeated == repeats_field(object@),
        forall|state: StateView|
            object@ == encoding::encoded(#[trigger] sidecar::state_tree(state)) ==> !repeated,
{
    let repeated = is_key_repeated(object, "version") || is_key_repeated(object, "lane_hash")
        || is_key_repeated(object, "model") || is_key_repeated(object, "semantic_fingerprint")
        || is_key_repeated(object, "compact_threshold")
        || is_key_repeated(object, "source_prefix_count")
        || is_key_repeated(object, "source_prefix_sha256")
        || is_key_repeated(object, "last_output_match")
        || is_key_repeated(object, "compaction_item_json")
        || is_key_repeated(object, "compaction_item_sha256")
        || is_key_repeated(object, "opaque_sha256") || is_key_repeated(object, "raw_suffix_json")
        || is_key_repeated(object, "raw_suffix_sha256")
        || is_key_repeated(object, "usage_input_tokens")
        || is_key_repeated(object, "updated_at_ms");
    assert forall|state: StateView|
        object@ == encoding::encoded(#[trigger] sidecar::state_tree(state)) implies !repeated by {
        lemma_state_keys(state);
        lemma_state_numbers(state);
        let members = sidecar::state_tree(state)->Object_0;
        assert(sidecar::state_tree(state) == JsonTree::Object(members));
    }
    repeated
}

/// How the state and the checksum of a sidecar that was sealed are written.
proof fn lemma_sealed_fields(contents: Seq<char>, state: StateView)
    requires
        contents == sidecar::sealed(state),
        parsing::tells_members(contents, parsing::raw_members(contents)),
    ensures
        parsing::raw_members(contents) is Some,
        envelope_field(contents, 0, "state"@) == Some(
            encoding::encoded(sidecar::state_tree(state)),
        ),
        envelope_field(contents, 1, "state_sha256"@) == Some(
            encoding::encoded(JsonTree::Text(sidecar::state_checksum(state))),
        ),
{
    let members = sidecar::envelope_tree(state)->Object_0;
    assert(sidecar::envelope_tree(state) == JsonTree::Object(members));
    lemma_envelope_fields(state);
    lemma_written_member(contents, members, ENVELOPE_FIELDS as int, 0);
    lemma_written_member(contents, members, ENVELOPE_FIELDS as int, 1);
}

/// The sidecar that a text is, where it is one. Out of what was sealed comes the state that was
/// sealed.
fn read_envelope(contents: &str) -> (envelope: Option<SidecarEnvelope>)
    ensures
        sidecar::optional_envelope(envelope) == envelope_in(contents@),
        forall|state: StateView|
            contents@ == #[trigger] sidecar::sealed(state) ==> envelope_in(contents@) == Some(
                EnvelopeView { state, state_sha256: sidecar::state_checksum(state) },
            ),
{
    let envelope = Record::read(contents);
    let found = envelope.find(ENVELOPE_FIELDS, 0, "state", Ghost(contents@));
    let checksum = envelope.find(ENVELOPE_FIELDS, 1, "state_sha256", Ghost(contents@));
    let checksum = read_text(&checksum);
    proof {
        assert forall|state: StateView| contents@ == #[trigger] sidecar::sealed(
            state,
        ) implies fields::text_in(envelope_field(contents@, 1, "state_sha256"@)) == Some(
            sidecar::state_checksum(state),
        ) && text::optional_text(found) == Some(
            encoding::encoded(sidecar::state_tree(state)),
        ) by {
            lemma_sealed_fields(contents@, state);
        }
    }
    let written = found?;
    let repeated = envelope.is_object(Ghost(contents@)) && (is_key_repeated(contents, "state")
        || is_key_repeated(contents, "state_sha256"));
    let record = Record::read(written.as_str());
    let field_repeated = record.is_object(Ghost(written@)) && is_field_repeated(written.as_str());
    let state = state_of_record(written.as_str());
    proof {
        assert forall|state: StateView| contents@ == #[trigger] sidecar::sealed(
            state,
        ) implies !repeated && !field_repeated && state_in(written@) == Some(state) by {
            let members = sidecar::envelope_tree(state)->Object_0;
            assert(sidecar::envelope_tree(state) == JsonTree::Object(members));
            lemma_envelope_fields(state);
        }
    }
    let state_sha256 = checksum?;
    if repeated || field_repeated {
        return None;
    }
    Some(SidecarEnvelope { state: state?, state_sha256 })
}

/// Whether two records are written with the same keys, where the first is an object.
fn have_same_keys(a: &str, b: &str) -> (same: bool)
    ensures
        same == keys_agree(a@, b@),
{
    !Record::read(a).is_object(Ghost(a@)) || same_texts(&written_keys(a), &written_keys(b))
}

/// Whether a field of two states is written alike.
fn has_same_field(
    a: &Record,
    b: &Record,
    position: usize,
    key: &str,
    Ghost(first): Ghost<Seq<char>>,
    Ghost(second): Ghost<Seq<char>>,
) -> (same: bool)
    requires
        a.is_of(first),
        b.is_of(second),
    ensures
        same == (state_field(first, position as int, key@) == state_field(
            second,
            position as int,
            key@,
        )),
{
    same_written(
        &find_field(a, position, key, Ghost(first)),
        &find_field(b, position, key, Ghost(second)),
    )
}

/// Whether two states are written with the same fields.
fn have_same_fields(first: &str, second: &str) -> (same: bool)
    ensures
        same == fields_agree(first@, second@),
{
    let a = Record::read(first);
    let b = Record::read(second);
    let ghost f = first@;
    let ghost s = second@;
    has_same_field(&a, &b, 0, "version", Ghost(f), Ghost(s))
        && has_same_field(&a, &b, 1, "lane_hash", Ghost(f), Ghost(s))
        && has_same_field(&a, &b, 2, "model", Ghost(f), Ghost(s))
        && has_same_field(&a, &b, 3, "semantic_fingerprint", Ghost(f), Ghost(s))
        && has_same_field(&a, &b, 4, "compact_threshold", Ghost(f), Ghost(s))
        && has_same_field(&a, &b, 5, "source_prefix_count", Ghost(f), Ghost(s))
        && has_same_field(&a, &b, 6, "source_prefix_sha256", Ghost(f), Ghost(s))
        && has_same_field(&a, &b, 7, "last_output_match", Ghost(f), Ghost(s))
        && has_same_field(&a, &b, 8, "compaction_item_json", Ghost(f), Ghost(s))
        && has_same_field(&a, &b, 9, "compaction_item_sha256", Ghost(f), Ghost(s))
        && has_same_field(&a, &b, 10, "opaque_sha256", Ghost(f), Ghost(s))
        && has_same_field(&a, &b, 11, "raw_suffix_json", Ghost(f), Ghost(s))
        && has_same_field(&a, &b, 12, "raw_suffix_sha256", Ghost(f), Ghost(s))
        && has_same_field(&a, &b, 13, "usage_input_tokens", Ghost(f), Ghost(s))
        && has_same_field(&a, &b, 14, "updated_at_ms", Ghost(f), Ghost(s))
}

/// Whether two texts are written with the same keys and the same fields, as sidecars.
fn are_same_sidecars(a: &str, b: &str) -> (same: bool)
    ensures
        same == sidecars_agree(a@, b@),
{
    let first = Record::read(a);
    let second = Record::read(b);
    match (
        first.find(ENVELOPE_FIELDS, 0, "state", Ghost(a@)),
        second.find(ENVELOPE_FIELDS, 0, "state", Ghost(b@)),
    ) {
        (Some(record), Some(other)) => have_same_keys(a, b) && same_written(
            &first.find(ENVELOPE_FIELDS, 1, "state_sha256", Ghost(a@)),
            &second.find(ENVELOPE_FIELDS, 1, "state_sha256", Ghost(b@)),
        ) && have_same_keys(record.as_str(), other.as_str()) && have_same_fields(
            record.as_str(),
            other.as_str(),
        ),
        _ => false,
    }
}

/// The sidecar that the contents of a file are, where they are one. Out of what was sealed comes
/// the state that was sealed.
pub fn read_contents(contents: &[u8]) -> (envelope: Option<SidecarEnvelope>)
    ensures
        sidecar::optional_envelope(envelope) == sidecar_in(contents@),
        forall|state: StateView|
            contents@ == vstd::utf8::encode_utf8(#[trigger] sidecar::sealed(state)) ==> sidecar_in(
                contents@,
            ) == Some(EnvelopeView { state, state_sha256: sidecar::state_checksum(state) }),
{
    let text = mark_text(contents, '?');
    let other = mark_text(contents, '!');
    let envelope = read_envelope(text.as_str());
    proof {
        assert forall|state: StateView|
            contents@ == vstd::utf8::encode_utf8(
                #[trigger] sidecar::sealed(state),
            ) implies text@ == sidecar::sealed(state) && other@ == sidecar::sealed(state) by {
            vstd::utf8::encode_utf8_valid_utf8(sidecar::sealed(state));
            vstd::utf8::encode_utf8_decode_utf8(sidecar::sealed(state));
            marking::law_valid_text_has_no_mark(contents@, '?');
            marking::law_valid_text_has_no_mark(contents@, '!');
        }
    }
    if same_text(text.as_str(), other.as_str()) || are_same_sidecars(
        text.as_str(),
        other.as_str(),
    ) {
        envelope
    } else {
        None
    }
}

/// Why the contents of a file are refused as a sidecar.
pub open spec fn contents_fault(contents: Seq<u8>) -> Option<Seq<char>> {
    sidecar::envelope_fault(sidecar_in(contents))
}

/// The state in a sidecar with the contents `contents`, where its checksum and the state itself are
/// valid. Every valid state that was sealed is read back as it was.
pub fn read_sidecar(contents: &[u8]) -> (result: Result<SidecarState, InlineCompactionError>)
    ensures
        match result {
            Ok(state) => contents_fault(contents@) is None && (sidecar_in(
                contents@,
            ) matches Some(envelope) && state@ == envelope.state),
            Err(error) => contents_fault(contents@) matches Some(fault) && error.is_invalid_state(
                fault,
            ),
        },
        forall|state: StateView|
            contents@ == vstd::utf8::encode_utf8(#[trigger] sidecar::sealed(state))
                && sidecar::state_fault(state) is None ==> (result matches Ok(read) && read@
                == state),
{
    open_sidecar(read_contents(contents))
}

/// The state of a lane, where there is one and it can be read: its file was inspected as `found`
/// and read as `contents`.
pub open spec fn state_found(
    found: Result<FileFacts, IoFailure>,
    contents: Result<Vec<u8>, IoFailure>,
) -> Option<Option<StateView>> {
    match (found, contents) {
        (Err(failure), _) => if failure.kind == IoKind::NotFound {
            Some(None)
        } else {
            None
        },
        (Ok(file), Ok(bytes)) => if sidecar::file_fault(file) is None && contents_fault(
            bytes@,
        ) is None {
            Some(Some(sidecar_in(bytes@)->0.state))
        } else {
            None
        },
        (Ok(_), Err(_)) => None,
    }
}

/// The state of a lane, where there is one: its file was inspected as `found` and read as
/// `contents`. A file that cannot be a sidecar needs not be read. Every valid state that was sealed
/// is read back out of a file that can be a sidecar.
pub fn read_state(
    found: Result<FileFacts, IoFailure>,
    contents: Result<Vec<u8>, IoFailure>,
) -> (result: Result<Option<SidecarState>, InlineCompactionError>)
    ensures
        match (found, contents) {
            (Err(failure), _) => if failure.kind == IoKind::NotFound {
                result == Ok::<Option<SidecarState>, InlineCompactionError>(None)
            } else {
                result matches Err(error) && error.is_io("inspecting sidecar"@, failure)
            },
            (Ok(file), contents) => match (sidecar::file_fault(file), contents) {
                (Some(fault), _) => result matches Err(error) && error.is_invalid_state(fault),
                (None, Err(failure)) => result matches Err(error) && error.is_io(
                    "reading sidecar"@,
                    failure,
                ),
                (None, Ok(bytes)) => match contents_fault(bytes@) {
                    Some(fault) => result matches Err(error) && error.is_invalid_state(fault),
                    None => result matches Ok(Some(state)) && Some(state@) == (match sidecar_in(
                        bytes@,
                    ) {
                        Some(envelope) => Some(envelope.state),
                        None => None,
                    }),
                },
            },
        },
        match state_found(found, contents) {
            Some(Some(state)) => result matches Ok(Some(read)) && read@ == state,
            Some(None) => result == Ok::<Option<SidecarState>, InlineCompactionError>(None),
            None => result is Err,
        },
        forall|state: StateView|
            found is Ok && sidecar::file_fault(found->Ok_0) is None && contents is Ok
                && contents->Ok_0@ == vstd::utf8::encode_utf8(#[trigger] sidecar::sealed(state))
                && sidecar::state_fault(state) is None ==> (result matches Ok(Some(read)) && read@
                == state),
{
    match inspect_sidecar(found) {
        Ok(true) => match contents {
            Ok(bytes) => match read_sidecar(bytes.as_slice()) {
                Ok(state) => Ok(Some(state)),
                Err(error) => Err(error),
            },
            Err(source) => Err(InlineCompactionError::Io { operation: "reading sidecar", source }),
        },
        Ok(false) => Ok(None),
        Err(error) => Err(error),
    }
}

/// A private file with the contents of a sidecar that could be sealed can be a sidecar, whatever
/// the mode says of the kind of file.
pub proof fn law_written_file_can_be_read(state: StateView, file: FileFacts)
    requires
        vstd::utf8::encode_utf8(sidecar::sealed(state)).len() <= sidecar::MAX_STATE_BYTES,
        file.regular,
        file.length == vstd::utf8::encode_utf8(sidecar::sealed(state)).len(),
        file.mode matches Some(mode) ==> mode & 0o777 == 0o600,
    ensures
        sidecar::file_fault(file) is None,
{
}

/// There is no state exactly where there is no file. A state that is read stands in a regular file
/// of at most 64 MiB that is private where files have modes, agrees with its checksum and is valid.
pub proof fn law_states_are_read_from_sound_files(
    found: Result<FileFacts, IoFailure>,
    contents: Result<Vec<u8>, IoFailure>,
)
    ensures
        state_found(found, contents) == Some(None::<StateView>) <==> (found matches Err(failure)
            && failure.kind is NotFound),
        state_found(found, contents) matches Some(Some(state)) ==> {
            &&& found matches Ok(file)
            &&& contents matches Ok(bytes)
            &&& file.regular
            &&& file.length <= 67108864
            &&& file.mode matches Some(mode) ==> mode & 0o777 == 0o600
            &&& sidecar_in(bytes@) == Some(
                EnvelopeView {
                    state,
                    state_sha256: digest::text_fingerprint(
                        encoding::encoded(sidecar::state_tree(state)),
                    ),
                },
            )
            &&& sidecar::state_fault(state) is None
        },
{
}

/// A sidecar that is UTF-8 is read as the text that it encodes.
pub proof fn law_sidecars_are_read_as_text(contents: Seq<u8>)
    requires
        vstd::utf8::valid_utf8(contents),
    ensures
        sidecar_in(contents) == envelope_in(vstd::utf8::decode_utf8(contents)),
{
    marking::law_valid_text_has_no_mark(contents, '?');
    marking::law_valid_text_has_no_mark(contents, '!');
}

/// Whether `key` names a field of a state.
pub open spec fn is_state_key(key: Seq<char>) -> bool {
    seq![
        "version"@,
        "lane_hash"@,
        "model"@,
        "semantic_fingerprint"@,
        "compact_threshold"@,
        "source_prefix_count"@,
        "source_prefix_sha256"@,
        "last_output_match"@,
        "compaction_item_json"@,
        "compaction_item_sha256"@,
        "opaque_sha256"@,
        "raw_suffix_json"@,
        "raw_suffix_sha256"@,
        "usage_input_tokens"@,
        "updated_at_ms"@,
    ].contains(key)
}

/// A sidecar in which a field is written twice is none, and neither is one whose state or whose
/// checksum is missing.
pub proof fn law_repeated_fields_are_refused(contents: Seq<char>, record: Seq<char>, key: Seq<char>)
    requires
        fields::written_field(contents, 2, 0, "state"@) == Some(record),
    ensures
        parsing::raw_members(contents) is Some && keys::is_repeated(contents, "state"@)
            ==> envelope_in(contents) is None,
        parsing::raw_members(contents) is Some && keys::is_repeated(contents, "state_sha256"@)
            ==> envelope_in(contents) is None,
        parsing::raw_members(record) is Some && is_state_key(key) && keys::is_repeated(record, key)
            ==> envelope_in(contents) is None,
        fields::text_in(fields::written_field(contents, 2, 1, "state_sha256"@)) is None
            ==> envelope_in(contents) is None,
        envelope_in(contents) matches Some(envelope) ==> state_in(record) == Some(envelope.state)
            && fields::text_in(fields::written_field(contents, 2, 1, "state_sha256"@)) == Some(
            envelope.state_sha256,
        ),
{
}

/// Each field of a state is read from its own key of an object, or from its own place in a list of
/// fifteen.
pub proof fn law_states_are_read_field_by_field(record: Seq<char>, state: StateView)
    requires
        state_in(record) == Some(state),
    ensures
        fields::number_in(fields::written_field(record, 15, 0, "version"@), 0xffff_ffff) == Some(
            state.version as u64,
        ),
        fields::text_in(fields::written_field(record, 15, 1, "lane_hash"@)) == Some(state.lane_hash),
        fields::text_in(fields::written_field(record, 15, 2, "model"@)) == Some(state.model),
        fields::text_in(fields::written_field(record, 15, 3, "semantic_fingerprint"@)) == Some(
            state.semantic_fingerprint,
        ),
        fields::number_in(
            fields::written_field(record, 15, 4, "compact_threshold"@),
            0xffff_ffff_ffff_ffff,
        ) == Some(state.compact_threshold),
        fields::number_in(
            fields::written_field(record, 15, 5, "source_prefix_count"@),
            usize::MAX as u64,
        ) == Some(state.source_prefix_count as u64),
        fields::text_in(fields::written_field(record, 15, 6, "source_prefix_sha256"@)) == Some(
            state.source_prefix_sha256,
        ),
        fields::recognitions_in(fields::written_field(record, 15, 7, "last_output_match"@)) == Some(
            state.last_output_match,
        ),
        fields::text_in(fields::written_field(record, 15, 8, "compaction_item_json"@)) == Some(
            state.compaction_item_json,
        ),
        fields::text_in(fields::written_field(record, 15, 9, "compaction_item_sha256"@)) == Some(
            state.compaction_item_sha256,
        ),
        fields::text_in(fields::written_field(record, 15, 10, "opaque_sha256"@)) == Some(
            state.opaque_sha256,
        ),
        fields::texts_in(fields::written_field(record, 15, 11, "raw_suffix_json"@)) == Some(
            state.raw_suffix_json,
        ),
        fields::text_in(fields::written_field(record, 15, 12, "raw_suffix_sha256"@)) == Some(
            state.raw_suffix_sha256,
        ),
        fields::number_in(
            fields::written_field(record, 15, 13, "usage_input_tokens"@),
            0xffff_ffff_ffff_ffff,
        ) == Some(state.usage_input_tokens),
        fields::number_in(
            fields::written_field(record, 15, 14, "updated_at_ms"@),
            0xffff_ffff_ffff_ffff,
        ) == Some(state.updated_at_ms),
{
    let count = fields::number_in(
        fields::written_field(record, 15, 5, "source_prefix_count"@),
        usize::MAX as u64,
    );
    assert(count is Some && count->0 <= usize::MAX);
}

/// Bytes that are no UTF-8 have no part in what is read: with another mark in their place the same
/// state and the same checksum stand in the sidecar.
pub proof fn law_stray_bytes_do_not_count(contents: Seq<u8>, envelope: EnvelopeView)
    requires
        sidecar_in(contents) == Some(envelope),
    ensures
        ({
            let other = marking::marked(contents, '!');
            &&& fields::written_field(other, 2, 0, "state"@) matches Some(record)
            &&& state_in(record) == Some(envelope.state)
            &&& fields::text_in(fields::written_field(other, 2, 1, "state_sha256"@)) == Some(
                envelope.state_sha256,
            )
        }),
{
}

}
