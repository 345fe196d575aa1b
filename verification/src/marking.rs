//! Bytes as text, with a mark in place of each byte that is no UTF-8.

use vstd::prelude::*;
use vstd::slice::slice_subrange;
use vstd::string::*;
use vstd::utf8::*;

verus! {

/// `std::str::from_utf8`: the text that the bytes encode, where they are valid UTF-8.
#[verifier::external_body]
fn valid_text(bytes: &[u8]) -> (text: Option<String>)
    ensures
        text is Some <==> valid_utf8(bytes@),
        text matches Some(t) ==> t@ == decode_utf8(bytes@),
{
    std::str::from_utf8(bytes).ok().map(|text| text.to_string())
}

/// The characters that bytes encode, with `mark` in place of each byte that no encoding of a
/// character begins with or goes on with.
pub open spec fn marked(bytes: Seq<u8>, mark: char) -> Seq<char>
    decreases bytes.len(),
{
    if bytes.len() == 0 {
        Seq::empty()
    } else if valid_first_scalar(bytes) {
        seq![decode_first_scalar(bytes) as char] + marked(pop_first_scalar(bytes), mark)
    } else {
        seq![mark] + marked(bytes.drop_first(), mark)
    }
}

/// Nothing is marked in valid UTF-8.
pub proof fn law_valid_text_has_no_mark(bytes: Seq<u8>, mark: char)
    requires
        valid_utf8(bytes),
    ensures
        marked(bytes, mark) == decode_utf8(bytes),
    decreases bytes.len(),
{
    if bytes.len() > 0 {
        law_valid_text_has_no_mark(pop_first_scalar(bytes), mark);
    }
}

/// The bytes that encode the first character.
proof fn lemma_first_scalar_alone(bytes: Seq<u8>, width: int)
    requires
        0 < width <= bytes.len(),
        width == length_of_first_scalar(bytes),
        is_leading_byte_width_4(bytes[0]) || width < 4,
    ensures
        valid_utf8(bytes.take(width)) <==> valid_first_scalar(bytes),
        valid_first_scalar(bytes) ==> decode_utf8(bytes.take(width)) == seq![
            decode_first_scalar(bytes) as char,
        ],
{
    let front = bytes.take(width);
    assert(valid_first_scalar(front) <==> valid_first_scalar(bytes));
    if valid_first_scalar(bytes) {
        assert(pop_first_scalar(front) =~= Seq::empty());
        assert(valid_utf8(Seq::<u8>::empty()));
        assert(decode_utf8(Seq::<u8>::empty()) =~= Seq::empty());
        assert(valid_utf8(front));
        assert(decode_utf8(front) =~= seq![decode_first_scalar(bytes) as char]);
    }
}

/// The first character that bytes encode, and how many bytes encode it.
fn first_character(bytes: &[u8]) -> (first: Option<(String, usize)>)
    requires
        bytes@.len() > 0,
    ensures
        match first {
            Some((text, width)) => valid_first_scalar(bytes@) && width == length_of_first_scalar(
                bytes@,
            ) && text@ == seq![decode_first_scalar(bytes@) as char],
            None => !valid_first_scalar(bytes@),
        },
{
    let lead: u8 = bytes[0];
    let width: usize = if lead <= 0x7f {
        1
    } else if 0xc0 <= lead && lead <= 0xdf {
        2
    } else if 0xe0 <= lead && lead <= 0xef {
        3
    } else if 0xf0 <= lead && lead <= 0xf7 {
        4
    } else {
        return None;
    };
    if width > bytes.len() {
        return None;
    }
    proof {
        lemma_first_scalar_alone(bytes@, width as int);
        assert(bytes@.subrange(0, width as int) =~= bytes@.take(width as int));
    }
    match valid_text(slice_subrange(bytes, 0, width)) {
        Some(text) => Some((text, width)),
        None => None,
    }
}

/// The characters that bytes encode, with `mark` in place of each byte that is no UTF-8.
pub fn mark_text(bytes: &[u8], mark: char) -> (text: String)
    ensures
        text@ == marked(bytes@, mark),
{
    if let Some(text) = valid_text(bytes) {
        proof {
            law_valid_text_has_no_mark(bytes@, mark);
        }
        return text;
    }
    let mut text = String::new();
    let mut i: usize = 0;
    assert(bytes@.skip(0) =~= bytes@);
    assert(text@ + marked(bytes@, mark) =~= marked(bytes@, mark));
    while i < bytes.len()
        invariant
            i <= bytes@.len(),
            text@ + marked(bytes@.skip(i as int), mark) == marked(bytes@, mark),
        decreases bytes@.len() - i,
    {
        let ghost before = text@;
        let ghost rest = bytes@.skip(i as int);
        let remaining = slice_subrange(bytes, i, bytes.len());
        assert(remaining@ =~= rest);
        match first_character(remaining) {
            Some((character, width)) => {
                text.append(character.as_str());
                i = i + width;
                assert(pop_first_scalar(rest) =~= bytes@.skip(i as int));
            },
            None => {
                text.push(mark);
                i = i + 1;
                assert(rest.drop_first() =~= bytes@.skip(i as int));
            },
        }
        assert(text@ + marked(bytes@.skip(i as int), mark) =~= before + marked(rest, mark));
    }
    assert(text@ =~= marked(bytes@, mark));
    text
}

/// A byte of ASCII stands for its character, and a byte that no encoding of a character begins with
/// has the mark in its place; reading goes on behind it.
pub proof fn law_marks_stand_for_stray_bytes(byte: u8, rest: Seq<u8>, mark: char)
    ensures
        byte < 0x80 ==> marked(seq![byte] + rest, mark) == seq![byte as char] + marked(rest, mark),
        0x80 <= byte < 0xc0 || byte >= 0xf8 ==> marked(seq![byte] + rest, mark) == seq![mark]
            + marked(rest, mark),
        marked(Seq::empty(), mark).len() == 0,
{
    let bytes = seq![byte] + rest;
    assert(bytes.drop_first() =~= rest);
    assert(bytes.skip(1) =~= rest);
    assert(bytes[0] == byte);
    if byte < 0x80 {
        assert((byte & 0x7f) as u32 == byte as u32) by (bit_vector)
            requires
                byte < 0x80,
        ;
        assert(decode_first_scalar(bytes) == byte);
        assert(pop_first_scalar(bytes) =~= rest);
    }
}

}
