//! Parts of texts: trimming, splitting, joining and searching.

use vstd::prelude::*;
use vstd::string::*;

use crate::text;
use crate::text::{chars_of, text_between};

verus! {

/// A character with the Unicode property White_Space.
pub open spec fn is_space(c: char) -> bool {
    ||| '\u{9}' <= c <= '\u{d}'
    ||| c == ' '
    ||| c == '\u{85}'
    ||| c == '\u{a0}'
    ||| c == '\u{1680}'
    ||| '\u{2000}' <= c <= '\u{200a}'
    ||| c == '\u{2028}'
    ||| c == '\u{2029}'
    ||| c == '\u{202f}'
    ||| c == '\u{205f}'
    ||| c == '\u{3000}'
}

/// Whether `c` has the Unicode property White_Space.
pub fn is_white_space(c: char) -> (space: bool)
    ensures
        space == is_space(c),
{
    ('\u{9}' <= c && c <= '\u{d}') || c == ' ' || c == '\u{85}' || c == '\u{a0}' || c == '\u{1680}'
        || ('\u{2000}' <= c && c <= '\u{200a}') || c == '\u{2028}' || c == '\u{2029}' || c
        == '\u{202f}' || c == '\u{205f}' || c == '\u{3000}'
}

/// The text without the white space in front of it.
pub open spec fn trimmed_start(text: Seq<char>) -> Seq<char>
    decreases text.len(),
{
    if text.len() > 0 && is_space(text[0]) {
        trimmed_start(text.drop_first())
    } else {
        text
    }
}

/// The text without the white space behind it.
pub open spec fn trimmed_end(text: Seq<char>) -> Seq<char>
    decreases text.len(),
{
    if text.len() > 0 && is_space(text.last()) {
        trimmed_end(text.drop_last())
    } else {
        text
    }
}

/// The text without the white space around it.
pub open spec fn trimmed(text: Seq<char>) -> Seq<char> {
    trimmed_end(trimmed_start(text))
}

/// The text without the white space around it.
pub fn trim(text: &str) -> (result: String)
    ensures
        result@ == trimmed(text@),
{
    let chars = chars_of(text);
    let mut from: usize = 0;
    assert(text@.skip(0) =~= text@);
    while from < chars.len() && is_white_space(chars[from])
        invariant
            chars@ == text@,
            from <= chars@.len(),
            trimmed_start(text@) == trimmed_start(text@.skip(from as int)),
        decreases chars@.len() - from,
    {
        assert(text@.skip(from as int).drop_first() =~= text@.skip(from + 1));
        from = from + 1;
    }
    let ghost rest = text@.skip(from as int);
    let mut to: usize = chars.len();
    assert(rest.take(rest.len() as int) =~= rest);
    while to > from && is_white_space(chars[to - 1])
        invariant
            chars@ == text@,
            from <= to <= chars@.len(),
            rest == text@.skip(from as int),
            trimmed_end(rest) == trimmed_end(rest.take(to - from)),
        decreases to,
    {
        assert(rest.take(to - from).drop_last() =~= rest.take(to - from - 1));
        to = to - 1;
    }
    assert(text@.subrange(from as int, to as int) =~= rest.take(to - from));
    text_between(&chars, from, to)
}

/// The parts of a text between the occurrences of `separator`.
pub open spec fn split(text: Seq<char>, separator: char) -> Seq<Seq<char>>
    decreases text.len(),
{
    if text.len() == 0 {
        seq![Seq::empty()]
    } else {
        let front = split(text.drop_last(), separator);
        if text.last() == separator {
            front.push(Seq::empty())
        } else {
            front.drop_last().push(front.last().push(text.last()))
        }
    }
}

/// The parts one behind the other, with `separator` between each two.
pub open spec fn joined(parts: Seq<Seq<char>>, separator: char) -> Seq<char>
    decreases parts.len(),
{
    if parts.len() == 0 {
        Seq::empty()
    } else if parts.len() == 1 {
        parts[0]
    } else {
        joined(parts.drop_last(), separator).push(separator) + parts.last()
    }
}

/// A text is its parts, joined, and there is always one part.
pub proof fn lemma_split_joined(text: Seq<char>, separator: char)
    ensures
        split(text, separator).len() > 0,
        joined(split(text, separator), separator) == text,
    decreases text.len(),
{
    let parts = split(text, separator);
    if text.len() > 0 {
        let front = split(text.drop_last(), separator);
        lemma_split_joined(text.drop_last(), separator);
        if text.last() == separator {
            assert(parts.drop_last() =~= front);
            assert(joined(parts, separator) =~= text);
        } else {
            assert(parts.drop_last() =~= front.drop_last());
            assert(joined(parts, separator) =~= joined(front, separator).push(text.last()));
            assert(text.drop_last().push(text.last()) =~= text);
        }
    }
}

/// Whether no part holds the separator.
pub open spec fn are_free_of(parts: Seq<Seq<char>>, separator: char) -> bool {
    forall|i: int| 0 <= i < parts.len() ==> !(#[trigger] parts[i]).contains(separator)
}

/// The parts of a text do not hold the separator.
pub proof fn lemma_split_free(text: Seq<char>, separator: char)
    ensures
        are_free_of(split(text, separator), separator),
    decreases text.len(),
{
    let parts = split(text, separator);
    if text.len() > 0 {
        let front = split(text.drop_last(), separator);
        lemma_split_free(text.drop_last(), separator);
        lemma_split_joined(text.drop_last(), separator);
        assert forall|i: int| 0 <= i < parts.len() implies !(#[trigger] parts[i]).contains(
            separator,
        ) by {
            if i < parts.len() - 1 {
                assert(parts[i] == front[i]);
            } else if text.last() != separator {
                assert(!front[front.len() - 1].contains(separator));
                assert forall|j: int| 0 <= j < parts[i].len() implies parts[i][j] != separator by {
                    if j < front.last().len() {
                        assert(parts[i][j] == front.last()[j]);
                        assert(front.last().contains(front.last()[j]));
                    }
                }
            }
        }
    }
}

/// Text behind a text that does not hold the separator goes to its last part.
proof fn lemma_split_appended(text: Seq<char>, part: Seq<char>, separator: char)
    requires
        !part.contains(separator),
    ensures
        split(text + part, separator) == split(text, separator).drop_last().push(
            split(text, separator).last() + part,
        ),
    decreases part.len(),
{
    let before = split(text, separator);
    lemma_split_joined(text, separator);
    if part.len() == 0 {
        assert(text + part =~= text);
        assert(before.last() + part =~= before.last());
        assert(before.drop_last().push(before.last()) =~= before);
    } else {
        let front = part.drop_last();
        assert forall|i: int| 0 <= i < front.len() implies front[i] != separator by {
            assert(part.contains(part[i]));
        }
        assert(part.contains(part[part.len() - 1]));
        lemma_split_appended(text, front, separator);
        assert((text + part).drop_last() =~= text + front);
        assert((before.last() + front).push(part.last()) =~= before.last() + part);
        let longer = before.drop_last().push(before.last() + front);
        assert(longer.drop_last() =~= before.drop_last());
    }
}

/// Parts that were joined are what the joined text is split into, where they do not hold the
/// separator.
pub proof fn lemma_joined_split(parts: Seq<Seq<char>>, separator: char)
    requires
        parts.len() > 0,
        are_free_of(parts, separator),
    ensures
        split(joined(parts, separator), separator) == parts,
    decreases parts.len(),
{
    let last = parts.last();
    let none = Seq::<char>::empty();
    assert(!parts[parts.len() - 1].contains(separator));
    if parts.len() == 1 {
        lemma_split_appended(none, last, separator);
        assert(none + last =~= last);
        assert(split(none, separator) =~= seq![none]);
        assert(split(last, separator) =~= parts);
    } else {
        let front = parts.drop_last();
        assert forall|i: int| 0 <= i < front.len() implies !(#[trigger] front[i]).contains(
            separator,
        ) by {
            assert(front[i] == parts[i]);
        }
        lemma_joined_split(front, separator);
        let text = joined(front, separator).push(separator);
        assert(text.drop_last() =~= joined(front, separator));
        assert(split(text, separator) == front.push(none));
        lemma_split_appended(text, last, separator);
        assert(none + last =~= last);
        assert(front.push(none).drop_last() =~= front);
        assert(front.push(last) =~= parts);
    }
}

/// The parts of `text` between the occurrences of `separator`.
pub fn split_text(text: &str, separator: char) -> (parts: Vec<String>)
    ensures
        text::texts(parts@) == split(text@, separator),
{
    let mut parts: Vec<String> = Vec::new();
    let mut part = String::new();
    let chars = chars_of(text);
    let mut i: usize = 0;
    assert(text::texts(parts@).push(part@) =~= split(text@.take(0), separator));
    while i < chars.len()
        invariant
            chars@ == text@,
            i <= chars@.len(),
            text::texts(parts@).push(part@) == split(text@.take(i as int), separator),
        decreases chars@.len() - i,
    {
        let c = chars[i];
        let ghost before = text::texts(parts@).push(part@);
        assert(text@.take(i + 1).drop_last() =~= text@.take(i as int));
        assert(before.drop_last() =~= text::texts(parts@));
        if c == separator {
            parts.push(part);
            part = String::new();
            assert(text::texts(parts@) =~= before);
        } else {
            part.push(c);
        }
        i = i + 1;
        assert(text::texts(parts@).push(part@) =~= split(text@.take(i as int), separator));
    }
    let ghost before = text::texts(parts@).push(part@);
    parts.push(part);
    assert(text::texts(parts@) =~= before);
    assert(text@.take(i as int) =~= text@);
    parts
}

/// The parts one behind the other, with `separator` between each two.
pub fn join_texts(parts: &Vec<String>, separator: char) -> (text: String)
    ensures
        text@ == joined(text::texts(parts@), separator),
{
    let mut text = String::new();
    let mut i: usize = 0;
    let ghost held = text::texts(parts@);
    while i < parts.len()
        invariant
            i <= parts@.len(),
            held == text::texts(parts@),
            text@ == joined(held.take(i as int), separator),
        decreases parts@.len() - i,
    {
        if i > 0 {
            text.push(separator);
        }
        text.append(parts[i].as_str());
        i = i + 1;
        assert(held.take(i as int).drop_last() =~= held.take(i - 1));
        assert(text@ =~= joined(held.take(i as int), separator));
    }
    assert(held.take(i as int) =~= held);
    text
}

/// Whether `needle` stands in `text` at position `at`.
pub open spec fn stands_at(text: Seq<char>, needle: Seq<char>, at: int) -> bool {
    &&& 0 <= at
    &&& at + needle.len() <= text.len()
    &&& text.subrange(at, at + needle.len()) == needle
}

/// Whether `needle` stands anywhere in `text`.
pub open spec fn contains(text: Seq<char>, needle: Seq<char>) -> bool {
    exists|at: int| stands_at(text, needle, at)
}

/// Whether `needle` stands in `chars` at position `at`.
fn found_at(chars: &Vec<char>, needle: &Vec<char>, at: usize) -> (found: bool)
    requires
        at <= chars@.len(),
    ensures
        found == stands_at(chars@, needle@, at as int),
{
    let length: usize = chars.len();
    if length - at < needle.len() {
        return false;
    }
    let mut i: usize = 0;
    while i < needle.len()
        invariant
            i <= needle@.len(),
            at + needle@.len() <= chars@.len() == length,
            forall|j: int| 0 <= j < i ==> chars@[at + j] == needle@[j],
        decreases needle@.len() - i,
    {
        if chars[at + i] != needle[i] {
            assert(chars@.subrange(at as int, at + needle@.len())[i as int] != needle@[i as int]);
            return false;
        }
        i = i + 1;
    }
    assert(chars@.subrange(at as int, at + needle@.len()) =~= needle@);
    true
}

/// Where `needle` stands in `text` for the first time.
pub fn find_text(text: &Vec<char>, needle: &Vec<char>) -> (at: Option<usize>)
    ensures
        at is Some <==> contains(text@, needle@),
        at matches Some(i) ==> stands_at(text@, needle@, i as int) && forall|j: int|
            0 <= j < i ==> !stands_at(text@, needle@, j),
{
    let mut i: usize = 0;
    while i < text.len()
        invariant
            i <= text@.len(),
            forall|j: int| 0 <= j < i ==> !stands_at(text@, needle@, j),
        decreases text@.len() - i,
    {
        if found_at(text, needle, i) {
            return Some(i);
        }
        i = i + 1;
    }
    if found_at(text, needle, i) {
        Some(i)
    } else {
        assert forall|j: int| !stands_at(text@, needle@, j) by {
            if stands_at(text@, needle@, j) {
                assert(j <= i);
            }
        }
        None
    }
}

/// Whether `needle` stands anywhere in `text`.
pub fn contains_text(text: &str, needle: &str) -> (found: bool)
    ensures
        found == contains(text@, needle@),
{
    find_text(&chars_of(text), &chars_of(needle)).is_some()
}

/// Whether `text` begins with `prefix`.
pub fn begins_with(text: &str, prefix: &str) -> (found: bool)
    ensures
        found == stands_at(text@, prefix@, 0),
{
    found_at(&chars_of(text), &chars_of(prefix), 0)
}

/// Whether `text` ends with `suffix`.
pub fn finishes_with(text: &str, suffix: &str) -> (found: bool)
    ensures
        found == stands_at(text@, suffix@, text@.len() - suffix@.len()),
{
    let text = chars_of(text);
    let suffix = chars_of(suffix);
    text.len() >= suffix.len() && found_at(&text, &suffix, text.len() - suffix.len())
}

/// The lower-case form of an ASCII letter; any other character as it is.
pub open spec fn lower(c: char) -> char {
    if 'A' <= c <= 'Z' {
        ((c as int) + 32) as char
    } else {
        c
    }
}

/// The text with its ASCII letters in lower case.
pub open spec fn lower_case(text: Seq<char>) -> Seq<char> {
    Seq::new(text.len(), |i: int| lower(text[i]))
}

/// The lower-case form of an ASCII letter; any other character as it is.
fn lower_char(c: char) -> (result: char)
    ensures
        result == lower(c),
{
    if 'A' <= c && c <= 'Z' {
        (c as u8 + 32) as char
    } else {
        c
    }
}

/// The text with its ASCII letters in lower case.
pub fn to_lower_case(text: &str) -> (result: String)
    ensures
        result@ == lower_case(text@),
{
    let mut result = String::new();
    for c in it: text.chars()
        invariant
            result@ == lower_case(text@.take(it.index())),
            it.seq() == text@,
    {
        let ghost before = result@;
        result.push(lower_char(c));
        assert(lower_case(text@.take(it.index() + 1)) =~= before.push(lower(c)));
    }
    assert(text@.take(text@.len() as int) == text@);
    result
}

/// The parts of a text between its white space.
pub open spec fn space_parts(text: Seq<char>) -> Seq<Seq<char>>
    decreases text.len(),
{
    if text.len() == 0 {
        seq![Seq::empty()]
    } else {
        let front = space_parts(text.drop_last());
        if is_space(text.last()) {
            front.push(Seq::empty())
        } else {
            front.drop_last().push(front.last().push(text.last()))
        }
    }
}

/// The parts that are not empty.
pub open spec fn non_empty(parts: Seq<Seq<char>>) -> Seq<Seq<char>>
    decreases parts.len(),
{
    if parts.len() == 0 {
        Seq::empty()
    } else if parts.last().len() == 0 {
        non_empty(parts.drop_last())
    } else {
        non_empty(parts.drop_last()).push(parts.last())
    }
}

/// The words of a text: what stands between white space.
pub open spec fn words(text: Seq<char>) -> Seq<Seq<char>> {
    non_empty(space_parts(text))
}

/// The words of `text`.
pub fn words_of(text: &str) -> (result: Vec<String>)
    ensures
        text::texts(result@) == words(text@),
{
    broadcast use text::lemma_texts_push;

    let chars = chars_of(text);
    let mut result: Vec<String> = Vec::new();
    let mut word = String::new();
    let mut i: usize = 0;
    assert(space_parts(text@.take(0)) =~= seq![Seq::empty()]);
    assert(space_parts(text@.take(0)).drop_last() =~= Seq::empty());
    assert(text::texts(result@) =~= non_empty(Seq::empty()));
    while i < chars.len()
        invariant
            chars@ == text@,
            i <= chars@.len(),
            space_parts(text@.take(i as int)).len() > 0,
            word@ == space_parts(text@.take(i as int)).last(),
            text::texts(result@) == non_empty(space_parts(text@.take(i as int)).drop_last()),
        decreases chars@.len() - i,
    {
        let c = chars[i];
        let ghost before = space_parts(text@.take(i as int));
        assert(text@.take(i + 1).drop_last() =~= text@.take(i as int));
        if is_white_space(c) {
            assert(before.push(Seq::empty()).drop_last() =~= before);
            if !word.as_str().is_empty() {
                result.push(word);
                word = String::new();
            }
            assert(word@ =~= Seq::empty());
        } else {
            word.push(c);
            assert(before.drop_last().push(before.last().push(c)).drop_last()
                =~= before.drop_last());
        }
        i = i + 1;
    }
    assert(text@.take(i as int) =~= text@);
    if !word.as_str().is_empty() {
        result.push(word);
    }
    result
}

/// A line that ends with a line feed, or the last line without one: with the line feed, a carriage
/// return before it is taken off too.
pub open spec fn line_of(part: Seq<char>, terminated: bool) -> Seq<char> {
    if terminated && part.len() > 0 && part.last() == '\r' {
        part.drop_last()
    } else {
        part
    }
}

/// The lines of a text. Nothing behind the last line feed is no line.
pub open spec fn lines(text: Seq<char>) -> Seq<Seq<char>> {
    let parts = split(text, '\n');
    let count = if parts.last().len() == 0 {
        (parts.len() - 1) as nat
    } else {
        parts.len()
    };
    Seq::new(count, |i: int| line_of(parts[i], i < parts.len() - 1))
}

/// The lines of `text`.
pub fn lines_of(text: &str) -> (result: Vec<String>)
    ensures
        text::texts(result@) == lines(text@),
{
    broadcast use text::lemma_texts_push;

    let parts = split_text(text, '\n');
    proof {
        lemma_split_joined(text@, '\n');
    }
    let ghost held = text::texts(parts@);
    let last: usize = parts.len() - 1;
    let count: usize = if parts[last].as_str().is_empty() {
        last
    } else {
        parts.len()
    };
    let mut result: Vec<String> = Vec::new();
    let mut i: usize = 0;
    while i < count
        invariant
            i <= count <= parts@.len(),
            last == parts@.len() - 1,
            held == text::texts(parts@),
            held == split(text@, '\n'),
            count == lines(text@).len(),
            text::texts(result@) == lines(text@).take(i as int),
        decreases count - i,
    {
        let chars = chars_of(parts[i].as_str());
        let length: usize = chars.len();
        if i < last && length > 0 && chars[length - 1] == '\r' {
            let line = text_between(&chars, 0, length - 1);
            assert(line@ =~= chars@.drop_last());
            result.push(line);
        } else {
            result.push(parts[i].clone());
        }
        i = i + 1;
        assert(lines(text@).take(i as int) =~= lines(text@).take(i - 1).push(
            line_of(held[i - 1], i - 1 < last),
        ));
    }
    assert(lines(text@).take(i as int) =~= lines(text@));
    result
}

/// White space is what Unicode counts as such: twenty-five characters, by their numbers.
pub proof fn law_white_space(c: char)
    ensures
        is_space(c) <==> {
            ||| 0x9 <= c as int <= 0xd
            ||| c as int == 0x20
            ||| c as int == 0x85
            ||| c as int == 0xa0
            ||| c as int == 0x1680
            ||| 0x2000 <= c as int <= 0x200a
            ||| 0x2028 <= c as int <= 0x2029
            ||| c as int == 0x202f
            ||| c as int == 0x205f
            ||| c as int == 0x3000
        },
{
}

/// White space in front of a text goes.
proof fn lemma_trimmed_start(front: Seq<char>, text: Seq<char>)
    requires
        forall|i: int| 0 <= i < front.len() ==> is_space(#[trigger] front[i]),
        text.len() > 0 ==> !is_space(text[0]),
    ensures
        trimmed_start(front + text) == text,
    decreases front.len(),
{
    if front.len() > 0 {
        assert(is_space(front[0]));
        assert((front + text)[0] == front[0]);
        assert((front + text).drop_first() =~= front.drop_first() + text);
        lemma_trimmed_start(front.drop_first(), text);
    } else {
        assert(front + text =~= text);
    }
}

/// White space behind a text goes.
proof fn lemma_trimmed_end(text: Seq<char>, back: Seq<char>)
    requires
        forall|i: int| 0 <= i < back.len() ==> is_space(#[trigger] back[i]),
        text.len() > 0 ==> !is_space(text.last()),
    ensures
        trimmed_end(text + back) == text,
    decreases back.len(),
{
    if back.len() > 0 {
        assert(is_space(back[back.len() - 1]));
        assert((text + back).last() == back.last());
        assert((text + back).drop_last() =~= text + back.drop_last());
        lemma_trimmed_end(text, back.drop_last());
    } else {
        assert(text + back =~= text);
    }
}

/// Trimming takes the white space around a text and nothing else.
pub proof fn law_trimming_takes_the_space_around(
    front: Seq<char>,
    text: Seq<char>,
    back: Seq<char>,
)
    requires
        forall|i: int| 0 <= i < front.len() ==> is_space(#[trigger] front[i]),
        forall|i: int| 0 <= i < back.len() ==> is_space(#[trigger] back[i]),
        text.len() > 0 ==> !is_space(text[0]) && !is_space(text.last()),
    ensures
        trimmed(front + text + back) == text,
{
    if text.len() > 0 {
        assert((text + back)[0] == text[0]);
        assert(front + text + back =~= front + (text + back));
        lemma_trimmed_start(front, text + back);
        lemma_trimmed_end(text, back);
    } else {
        let none = Seq::<char>::empty();
        assert forall|i: int| 0 <= i < (front + back).len() implies is_space(
            #[trigger] (front + back)[i],
        ) by {
            if i >= front.len() {
                assert((front + back)[i] == back[i - front.len()]);
            }
        }
        assert(front + text + back =~= (front + back) + none);
        lemma_trimmed_start(front + back, none);
        assert(text =~= none);
    }
}

/// In lower case the twenty-six capital letters are replaced, each by the letter thirty-two
/// characters on, and all other characters stay.
pub proof fn law_lower_case(text: Seq<char>, i: int)
    requires
        0 <= i < text.len(),
    ensures
        lower_case(text).len() == text.len(),
        65 <= text[i] as int <= 90 ==> lower_case(text)[i] as int == text[i] as int + 32,
        !(65 <= text[i] as int <= 90) ==> lower_case(text)[i] == text[i],
{
}

/// A text stands in another where that is the text with something in front and something behind.
pub proof fn law_contained_texts(text: Seq<char>, needle: Seq<char>)
    ensures
        contains(text, needle) <==> exists|front: Seq<char>, back: Seq<char>|
            text == #[trigger] (front + needle + back),
{
    if contains(text, needle) {
        let at = choose|at: int| stands_at(text, needle, at);
        let (front, back) = (text.take(at), text.skip(at + needle.len()));
        assert(text =~= front + text.subrange(at, at + needle.len()) + back);
        assert(text == front + needle + back);
    }
    if exists|front: Seq<char>, back: Seq<char>| text == #[trigger] (front + needle + back) {
        let (front, back) = choose|front: Seq<char>, back: Seq<char>|
            text == #[trigger] (front + needle + back);
        let at = front.len() as int;
        assert(text.subrange(at, at + needle.len()) =~= needle);
        assert(stands_at(text, needle, at));
    }
}

/// The parts of texts with white space between them are those of the one and those of the other.
proof fn lemma_space_parts(a: Seq<char>, space: char, b: Seq<char>)
    requires
        is_space(space),
    ensures
        space_parts(a.push(space) + b) == space_parts(a) + space_parts(b),
        space_parts(b).len() > 0,
    decreases b.len(),
{
    let text = a.push(space) + b;
    if b.len() == 0 {
        assert(text.drop_last() =~= a);
        assert(space_parts(text) =~= space_parts(a) + space_parts(b));
    } else {
        lemma_space_parts(a, space, b.drop_last());
        assert(text.drop_last() =~= a.push(space) + b.drop_last());
        let (x, y) = (space_parts(a), space_parts(b.drop_last()));
        assert(text.last() == b.last());
        assert((x + y).drop_last() =~= x + y.drop_last());
        assert((x + y).last() == y.last());
        assert(space_parts(text) =~= x + space_parts(b));
    }
}

/// What is not empty among two sequences of parts.
proof fn lemma_non_empty(a: Seq<Seq<char>>, b: Seq<Seq<char>>)
    ensures
        non_empty(a + b) == non_empty(a) + non_empty(b),
    decreases b.len(),
{
    if b.len() == 0 {
        assert(a + b =~= a);
        assert(non_empty(a) + non_empty(b) =~= non_empty(a));
    } else {
        lemma_non_empty(a, b.drop_last());
        assert((a + b).drop_last() =~= a + b.drop_last());
        assert((a + b).last() == b.last());
        assert(non_empty(a + b) =~= non_empty(a) + non_empty(b));
    }
}

/// A text without white space is one part.
proof fn lemma_one_space_part(word: Seq<char>)
    requires
        forall|i: int| 0 <= i < word.len() ==> !is_space(#[trigger] word[i]),
    ensures
        space_parts(word) == seq![word],
    decreases word.len(),
{
    if word.len() > 0 {
        lemma_one_space_part(word.drop_last());
        assert(!is_space(word[word.len() - 1]));
        assert(word.drop_last().push(word.last()) =~= word);
        assert(space_parts(word) =~= seq![word]);
    } else {
        assert(word =~= Seq::empty());
        assert(space_parts(word) =~= seq![word]);
    }
}

/// White space parts words and is in none: the words of two texts with white space between them are
/// those of the one and then those of the other, and a text without white space is one word, or none
/// where it is empty.
pub proof fn law_words_stand_between_white_space(
    a: Seq<char>,
    space: char,
    b: Seq<char>,
    word: Seq<char>,
)
    requires
        is_space(space),
        forall|i: int| 0 <= i < word.len() ==> !is_space(#[trigger] word[i]),
    ensures
        words(a.push(space) + b) == words(a) + words(b),
        word.len() > 0 ==> words(word) == seq![word],
        word.len() == 0 ==> words(word) == Seq::<Seq<char>>::empty(),
{
    lemma_space_parts(a, space, b);
    lemma_non_empty(space_parts(a), space_parts(b));
    lemma_one_space_part(word);
    assert(seq![word].drop_last() =~= Seq::<Seq<char>>::empty());
    assert(seq![word].last() == word);
    assert(non_empty(Seq::<Seq<char>>::empty()) =~= Seq::<Seq<char>>::empty());
    assert(non_empty(seq![word]) =~= if word.len() > 0 {
        seq![word]
    } else {
        Seq::<Seq<char>>::empty()
    });
}

/// The parts of two texts with the separator between them are those of the one and then those of
/// the other.
pub proof fn law_separators_part_texts(a: Seq<char>, b: Seq<char>, separator: char)
    ensures
        split(a.push(separator) + b, separator) == split(a, separator) + split(b, separator),
        !a.contains(separator) ==> split(a, separator) == seq![a],
    decreases b.len(),
{
    let text = a.push(separator) + b;
    lemma_split_joined(b, separator);
    if b.len() == 0 {
        assert(text.drop_last() =~= a);
        assert(split(text, separator) =~= split(a, separator) + split(b, separator));
    } else {
        law_separators_part_texts(a, b.drop_last(), separator);
        assert(text.drop_last() =~= a.push(separator) + b.drop_last());
        let (x, y) = (split(a, separator), split(b.drop_last(), separator));
        lemma_split_joined(b.drop_last(), separator);
        assert(text.last() == b.last());
        assert((x + y).drop_last() =~= x + y.drop_last());
        assert((x + y).last() == y.last());
        assert(split(text, separator) =~= x + split(b, separator));
    }
    if !a.contains(separator) {
        lemma_joined_split(seq![a], separator);
    }
}

/// Line feeds end lines, and a carriage return in front of one goes with it: the lines of a text are
/// the first, without those two, and then the lines of what is behind it. Text behind the last line
/// feed is a line where there is any, as it stands.
pub proof fn law_lines_end_with_line_feeds(line: Seq<char>, rest: Seq<char>)
    requires
        !line.contains('\n'),
    ensures
        line.len() > 0 && line.last() == '\r' ==> lines(line.push('\n') + rest) == seq![
            line.drop_last(),
        ] + lines(rest),
        line.len() == 0 || line.last() != '\r' ==> lines(line.push('\n') + rest) == seq![line]
            + lines(rest),
        line.len() > 0 ==> lines(line) == seq![line],
        line.len() == 0 ==> lines(line) == Seq::<Seq<char>>::empty(),
{
    law_separators_part_texts(line, rest, '\n');
    lemma_split_joined(rest, '\n');
    let text = line.push('\n') + rest;
    let (all, behind) = (split(text, '\n'), split(rest, '\n'));
    assert(all == seq![line] + behind);
    assert(all.last() == behind.last());
    let first = line_of(line, true);
    assert forall|i: int| 0 <= i < lines(text).len() implies lines(text)[i] == (seq![first] + lines(
        rest,
    ))[i] by {
        if i > 0 {
            assert(all[i] == behind[i - 1]);
        }
    }
    assert(lines(text) =~= seq![first] + lines(rest));
    assert(lines(line) =~= if line.len() > 0 {
        seq![line]
    } else {
        Seq::<Seq<char>>::empty()
    });
}

}
