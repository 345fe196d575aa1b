//! The compact JSON encoding: no white space, members in the order of the object.

use vstd::prelude::*;
use vstd::string::*;

use crate::decimal;
use crate::json::{Json, JsonTree, Member, MemberTree};
use crate::json;

verus! {

/// A lower-case hexadecimal digit.
pub open spec fn hex_digit(n: int) -> char {
    if n < 10 {
        (('0' as int) + n) as char
    } else {
        (('a' as int) + n - 10) as char
    }
}

/// A character as it stands inside a JSON text.
pub open spec fn escaped(c: char) -> Seq<char> {
    if c == '"' {
        seq!['\\', '"']
    } else if c == '\\' {
        seq!['\\', '\\']
    } else if c == '\u{8}' {
        seq!['\\', 'b']
    } else if c == '\t' {
        seq!['\\', 't']
    } else if c == '\n' {
        seq!['\\', 'n']
    } else if c == '\u{c}' {
        seq!['\\', 'f']
    } else if c == '\r' {
        seq!['\\', 'r']
    } else if ' ' > c {
        seq!['\\', 'u', '0', '0', hex_digit(c as int / 16), hex_digit(c as int % 16)]
    } else {
        seq![c]
    }
}

/// The characters of `text` as they stand inside a JSON text.
pub open spec fn all_escaped(text: Seq<char>) -> Seq<char>
    decreases text.len(),
{
    if text.len() == 0 {
        Seq::empty()
    } else {
        all_escaped(text.drop_last()) + escaped(text.last())
    }
}

/// `text` as a JSON text, with its quotes.
pub open spec fn quoted(text: Seq<char>) -> Seq<char> {
    seq!['"'] + all_escaped(text) + seq!['"']
}

/// The parts with a comma between each two.
pub open spec fn comma_separated(parts: Seq<Seq<char>>) -> Seq<char>
    decreases parts.len(),
{
    if parts.len() == 0 {
        Seq::empty()
    } else if parts.len() == 1 {
        parts[0]
    } else {
        comma_separated(parts.drop_last()) + seq![','] + parts.last()
    }
}

/// The compact encoding of a JSON value.
pub open spec fn encoded(value: JsonTree) -> Seq<char>
    decreases value,
{
    match value {
        JsonTree::Null => "null"@,
        JsonTree::Bool(b) => if b {
            "true"@
        } else {
            "false"@
        },
        JsonTree::Number(text, _) => text,
        JsonTree::Text(text) => quoted(text),
        JsonTree::Array(items) => seq!['['] + comma_separated(all_encoded(items)) + seq![']'],
        JsonTree::Object(members) => seq!['{'] + comma_separated(all_encoded_members(members))
            + seq!['}'],
    }
}

/// The encodings of a sequence of values.
pub open spec fn all_encoded(values: Seq<JsonTree>) -> Seq<Seq<char>>
    decreases values,
{
    if values.len() == 0 {
        Seq::empty()
    } else {
        all_encoded(values.drop_last()).push(encoded(values.last()))
    }
}

/// The encodings of the members of an object.
pub open spec fn all_encoded_members(members: Seq<MemberTree>) -> Seq<Seq<char>>
    decreases members,
{
    if members.len() == 0 {
        Seq::empty()
    } else {
        all_encoded_members(members.drop_last()).push(
            quoted(members.last().key) + seq![':'] + encoded(members.last().value),
        )
    }
}

/// Whether every number in a value is one as JSON writes it.
pub open spec fn has_json_numbers(value: JsonTree) -> bool
    decreases value,
{
    match value {
        JsonTree::Number(text, _) => decimal::is_json_number(text),
        JsonTree::Array(items) => forall|i: int|
            0 <= i < items.len() ==> has_json_numbers(#[trigger] items[i]),
        JsonTree::Object(members) => forall|i: int|
            0 <= i < members.len() ==> has_json_numbers((#[trigger] members[i]).value),
        _ => true,
    }
}

/// There is one encoding for each value, in order.
pub proof fn lemma_all_encoded(values: Seq<JsonTree>)
    ensures
        all_encoded(values).len() == values.len(),
        forall|i: int|
            0 <= i < values.len() ==> #[trigger] all_encoded(values)[i] == encoded(values[i]),
    decreases values.len(),
{
    if values.len() > 0 {
        lemma_all_encoded(values.drop_last());
    }
}

/// The encoding of a member: its key and its value.
pub open spec fn encoded_member(member: MemberTree) -> Seq<char> {
    quoted(member.key) + seq![':'] + encoded(member.value)
}

/// There is one encoding for each member, in order.
pub proof fn lemma_all_encoded_members(members: Seq<MemberTree>)
    ensures
        all_encoded_members(members).len() == members.len(),
        forall|i: int|
            0 <= i < members.len() ==> #[trigger] all_encoded_members(members)[i]
                == encoded_member(members[i]),
    decreases members.len(),
{
    if members.len() > 0 {
        lemma_all_encoded_members(members.drop_last());
    }
}

/// `serde_json::to_string` on a string slice: the JSON text with its quotes, in which a quote,
/// a backslash and each control character below U+0020 is escaped and nothing else is. It does
/// not fail on a string slice.
#[verifier::external_body]
fn quote(text: &str) -> (json: String)
    ensures
        json@ == quoted(text@),
{
    serde_json::to_string(text).expect("a string slice has a JSON encoding")
}

/// The compact encoding of `value`.
pub fn encode_json(value: &Json) -> (encoding: String)
    ensures
        encoding@ == encoded(value@),
{
    let mut encoding = String::new();
    append_json(&mut encoding, value);
    assert(encoding@ =~= encoded(value@));
    encoding
}

/// Appends the compact encoding of `value`.
fn append_json(output: &mut String, value: &Json)
    ensures
        final(output)@ == old(output)@ + encoded(value@),
    decreases value,
{
    broadcast use {json::lemma_array_view, json::lemma_object_view};

    match value {
        Json::Null => output.append("null"),
        Json::Bool(b) => {
            if *b {
                output.append("true")
            } else {
                output.append("false")
            }
        },
        Json::Number { text, unsigned: _ } => output.append(text.as_str()),
        Json::Text(text) => {
            let json = quote(text.as_str());
            output.append(json.as_str())
        },
        Json::Array(items) => {
            output.push('[');
            append_items(output, items);
            output.push(']');
            assert(output@ =~= old(output)@ + encoded(value@));
        },
        Json::Object(members) => {
            output.push('{');
            append_members(output, members);
            output.push('}');
            assert(output@ =~= old(output)@ + encoded(value@));
        },
    }
}

/// Appends the encodings of the items of an array, with commas between them.
fn append_items(output: &mut String, items: &Vec<Json>)
    ensures
        final(output)@ == old(output)@ + comma_separated(all_encoded(json::trees(items@))),
    decreases items,
{
    let ghost held = json::trees(items@);
    let ghost start = output@;
    let mut i: usize = 0;
    assert(start + comma_separated(all_encoded(held.take(0))) =~= start);
    #[verifier::loop_isolation(false)]
    while i < items.len()
        invariant
            i <= items@.len(),
            output@ == start + comma_separated(all_encoded(held.take(i as int))),
        decreases items@.len() - i,
    {
        if i > 0 {
            output.push(',');
        }
        append_json(output, &items[i]);
        i = i + 1;
        assert(held.take(i as int).drop_last() =~= held.take(i - 1));
        assert(all_encoded(held.take(i as int)).drop_last() =~= all_encoded(held.take(i - 1)));
        assert(output@ =~= start + comma_separated(all_encoded(held.take(i as int))));
    }
    assert(held.take(i as int) =~= held);
}

/// Appends the encodings of the members of an object, with commas between them.
fn append_members(output: &mut String, members: &Vec<Member>)
    ensures
        final(output)@ == old(output)@ + comma_separated(
            all_encoded_members(json::member_trees(members@)),
        ),
    decreases members,
{
    let ghost held = json::member_trees(members@);
    let ghost start = output@;
    let mut i: usize = 0;
    assert(start + comma_separated(all_encoded_members(held.take(0))) =~= start);
    #[verifier::loop_isolation(false)]
    while i < members.len()
        invariant
            i <= members@.len(),
            output@ == start + comma_separated(all_encoded_members(held.take(i as int))),
        decreases members@.len() - i,
    {
        if i > 0 {
            output.push(',');
        }
        let key = quote(members[i].key.as_str());
        output.append(key.as_str());
        output.push(':');
        append_json(output, &members[i].value);
        i = i + 1;
        assert(held.take(i as int).drop_last() =~= held.take(i - 1));
        assert(all_encoded_members(held.take(i as int)).drop_last() =~= all_encoded_members(
            held.take(i - 1),
        ));
        assert(output@ =~= start + comma_separated(all_encoded_members(held.take(i as int))));
    }
    assert(held.take(i as int) =~= held);
}

/// A hexadecimal digit is the one at its place among the sixteen.
pub proof fn law_hexadecimal_digits(n: int)
    requires
        0 <= n < 16,
    ensures
        hex_digit(n) == "0123456789abcdef"@[n],
{
    reveal_strlit("0123456789abcdef");
}

/// Inside a text a quote and a backslash stand behind a backslash, five control characters have a
/// letter behind one, the others are written by their number, and every other character stands for
/// itself.
pub proof fn law_characters_are_escaped(text: Seq<char>, c: char)
    ensures
        all_escaped(Seq::empty()).len() == 0,
        c as int == 0x22 || c as int == 0x5c ==> all_escaped(text.push(c)) == all_escaped(text)
            + seq!['\\', c],
        c as int == 8 ==> all_escaped(text.push(c)) == all_escaped(text) + seq!['\\', 'b'],
        c as int == 9 ==> all_escaped(text.push(c)) == all_escaped(text) + seq!['\\', 't'],
        c as int == 10 ==> all_escaped(text.push(c)) == all_escaped(text) + seq!['\\', 'n'],
        c as int == 12 ==> all_escaped(text.push(c)) == all_escaped(text) + seq!['\\', 'f'],
        c as int == 13 ==> all_escaped(text.push(c)) == all_escaped(text) + seq!['\\', 'r'],
        (c as int) < 32 && !(8 <= c as int <= 10) && !(12 <= c as int <= 13) ==> all_escaped(
            text.push(c),
        ) == all_escaped(text) + seq![
            '\\',
            'u',
            '0',
            '0',
            hex_digit(c as int / 16),
            hex_digit(c as int % 16),
        ],
        c as int >= 32 && c as int != 0x22 && c as int != 0x5c ==> all_escaped(text.push(c))
            == all_escaped(text).push(c),
{
    assert(text.push(c).drop_last() =~= text);
    assert(all_escaped(text) + seq![c] =~= all_escaped(text).push(c));
}

/// Values are written without white space: the three names, numbers as they are, texts between
/// quotes, items between brackets and members between braces, with commas between them and a colon
/// behind each key.
pub proof fn law_values_are_written_compactly(
    b: bool,
    number: Seq<char>,
    unsigned: Option<u64>,
    text: Seq<char>,
    items: Seq<JsonTree>,
    item: JsonTree,
    members: Seq<MemberTree>,
    member: MemberTree,
)
    ensures
        encoded(JsonTree::Null) == "null"@,
        b ==> encoded(JsonTree::Bool(b)) == "true"@,
        !b ==> encoded(JsonTree::Bool(b)) == "false"@,
        encoded(JsonTree::Number(number, unsigned)) == number,
        encoded(JsonTree::Text(text)) == seq!['"'] + all_escaped(text) + seq!['"'],
        encoded(JsonTree::Array(Seq::empty())) == seq!['[', ']'],
        items.len() == 0 ==> encoded(JsonTree::Array(items.push(item))) == seq!['['] + encoded(item)
            + seq![']'],
        items.len() > 0 ==> encoded(JsonTree::Array(items.push(item))) == encoded(
            JsonTree::Array(items),
        ).drop_last() + seq![','] + encoded(item) + seq![']'],
        encoded(JsonTree::Object(Seq::empty())) == seq!['{', '}'],
        members.len() == 0 ==> encoded(JsonTree::Object(members.push(member))) == seq!['{']
            + encoded(JsonTree::Text(member.key)) + seq![':'] + encoded(member.value) + seq!['}'],
        members.len() > 0 ==> encoded(JsonTree::Object(members.push(member))) == encoded(
            JsonTree::Object(members),
        ).drop_last() + seq![','] + encoded(JsonTree::Text(member.key)) + seq![':'] + encoded(
            member.value,
        ) + seq!['}'],
{
    let none = Seq::<Seq<char>>::empty();
    assert(all_encoded(Seq::<JsonTree>::empty()) =~= none);
    assert(all_encoded_members(Seq::<MemberTree>::empty()) =~= none);
    assert(encoded(JsonTree::Array(Seq::empty())) =~= seq!['[', ']']);
    assert(encoded(JsonTree::Object(Seq::empty())) =~= seq!['{', '}']);
    assert(items.push(item).drop_last() =~= items);
    assert(members.push(member).drop_last() =~= members);
    lemma_all_encoded(items);
    lemma_all_encoded_members(members);
    let longer = all_encoded(items).push(encoded(item));
    assert(all_encoded(items.push(item)) == longer);
    assert(longer.drop_last() =~= all_encoded(items));
    let written = encoded(JsonTree::Text(member.key)) + seq![':'] + encoded(member.value);
    let more = all_encoded_members(members).push(written);
    assert(all_encoded_members(members.push(member)) == more);
    assert(more.drop_last() =~= all_encoded_members(members));
    if items.len() == 0 {
        assert(longer =~= seq![encoded(item)]);
    } else {
        assert(encoded(JsonTree::Array(items)).drop_last() =~= seq!['['] + comma_separated(
            all_encoded(items),
        ));
        assert(encoded(JsonTree::Array(items.push(item))) =~= encoded(
            JsonTree::Array(items),
        ).drop_last() + seq![','] + encoded(item) + seq![']']);
    }
    if members.len() == 0 {
        assert(more =~= seq![written]);
        assert(encoded(JsonTree::Object(members.push(member))) =~= seq!['{'] + encoded(
            JsonTree::Text(member.key),
        ) + seq![':'] + encoded(member.value) + seq!['}']);
    } else {
        assert(encoded(JsonTree::Object(members)).drop_last() =~= seq!['{'] + comma_separated(
            all_encoded_members(members),
        ));
        assert(encoded(JsonTree::Object(members.push(member))) =~= encoded(
            JsonTree::Object(members),
        ).drop_last() + seq![','] + encoded(JsonTree::Text(member.key)) + seq![':'] + encoded(
            member.value,
        ) + seq!['}']);
    }
}

}
