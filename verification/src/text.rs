//! Text primitives: strings as sequences of characters.

use vstd::prelude::*;
use vstd::string::*;

verus! {

/// `String::push` appends one character to the end of the string.
pub assume_specification[ std::string::String::push ](s: &mut String, c: char)
    ensures
        final(s)@ == old(s)@.push(c),
;

/// The contents of each string of a sequence.
pub open spec fn texts(strings: Seq<String>) -> Seq<Seq<char>> {
    Seq::new(strings.len(), |i: int| strings[i]@)
}

/// One more string has one more content.
pub broadcast proof fn lemma_texts_push(strings: Seq<String>, string: String)
    ensures
        #[trigger] texts(strings.push(string)) == texts(strings).push(string@),
{
    assert(texts(strings.push(string)) =~= texts(strings).push(string@));
}

/// The contents of an optional string.
pub open spec fn optional_text(text: Option<String>) -> Option<Seq<char>> {
    match text {
        Some(text) => Some(text@),
        None => None,
    }
}

/// The order of strings: by the first character in which they differ, a proper prefix first.
pub open spec fn precedes(a: Seq<char>, b: Seq<char>) -> bool
    decreases a.len(),
{
    if b.len() == 0 {
        false
    } else if a.len() == 0 {
        true
    } else if a[0] == b[0] {
        precedes(a.drop_first(), b.drop_first())
    } else {
        a[0] < b[0]
    }
}

/// `precedes` is irreflexive.
pub proof fn lemma_precedes_irreflexive(a: Seq<char>)
    ensures
        !precedes(a, a),
    decreases a.len(),
{
    if a.len() > 0 {
        lemma_precedes_irreflexive(a.drop_first());
    }
}

/// `precedes` is transitive.
pub proof fn lemma_precedes_transitive(a: Seq<char>, b: Seq<char>, c: Seq<char>)
    requires
        precedes(a, b),
        precedes(b, c),
    ensures
        precedes(a, c),
    decreases a.len(),
{
    if a.len() > 0 && a[0] == b[0] && b[0] == c[0] {
        lemma_precedes_transitive(a.drop_first(), b.drop_first(), c.drop_first());
    }
}

/// Of two different strings one precedes the other.
pub proof fn lemma_precedes_total(a: Seq<char>, b: Seq<char>)
    ensures
        a == b || precedes(a, b) || precedes(b, a),
    decreases a.len(),
{
    if a.len() == 0 || b.len() == 0 {
        assert(a.len() == 0 && b.len() == 0 ==> a =~= b);
    } else if a[0] == b[0] {
        lemma_precedes_total(a.drop_first(), b.drop_first());
        assert(a =~= seq![a[0]] + a.drop_first());
        assert(b =~= seq![b[0]] + b.drop_first());
    }
}

/// Whether two strings hold the same characters.
pub fn same_text(a: &str, b: &str) -> (same: bool)
    ensures
        same == (a@ == b@),
{
    a.to_owned() == b.to_owned()
}

/// Whether two lists of strings hold the same texts.
pub fn same_texts(a: &Vec<String>, b: &Vec<String>) -> (same: bool)
    ensures
        same == (texts(a@) == texts(b@)),
{
    if a.len() != b.len() {
        assert(texts(a@).len() != texts(b@).len());
        return false;
    }
    let mut i: usize = 0;
    while i < a.len()
        invariant
            i <= a@.len() == b@.len(),
            forall|j: int| 0 <= j < i ==> #[trigger] texts(a@)[j] == texts(b@)[j],
        decreases a@.len() - i,
    {
        if !same_text(a[i].as_str(), b[i].as_str()) {
            assert(texts(a@)[i as int] != texts(b@)[i as int]);
            return false;
        }
        i = i + 1;
    }
    assert(texts(a@) =~= texts(b@));
    true
}

/// The characters of `text`, in order.
pub fn chars_of(text: &str) -> (chars: Vec<char>)
    ensures
        chars@ == text@,
{
    let mut chars: Vec<char> = Vec::new();
    for c in it: text.chars()
        invariant
            chars@ == text@.take(it.index()),
            it.seq() == text@,
    {
        chars.push(c);
    }
    assert(text@.take(text@.len() as int) == text@);
    chars
}

/// The string made of the characters from position `from` up to position `to`.
pub fn text_between(chars: &Vec<char>, from: usize, to: usize) -> (text: String)
    requires
        from <= to <= chars@.len(),
    ensures
        text@ == chars@.subrange(from as int, to as int),
{
    let mut text = String::new();
    let mut i: usize = from;
    while i < to
        invariant
            from <= i <= to <= chars@.len(),
            text@ == chars@.subrange(from as int, i as int),
        decreases to - i,
    {
        text.push(chars[i]);
        i = i + 1;
        assert(chars@.subrange(from as int, i as int) =~= chars@.subrange(from as int, i - 1).push(
            chars@[i - 1],
        ));
    }
    text
}

/// Whether one of the strings is `wanted`.
pub fn lists_text(strings: &Vec<String>, wanted: &str) -> (found: bool)
    ensures
        found == texts(strings@).contains(wanted@),
{
    let ghost held = texts(strings@);
    let mut i: usize = 0;
    while i < strings.len()
        invariant
            i <= strings@.len(),
            held == texts(strings@),
            forall|j: int| 0 <= j < i ==> held[j] != wanted@,
        decreases strings@.len() - i,
    {
        if same_text(strings[i].as_str(), wanted) {
            assert(held[i as int] == wanted@);
            return true;
        }
        i = i + 1;
    }
    false
}

/// Whether `a` precedes `b` in the order of strings.
pub fn text_precedes(a: &str, b: &str) -> (less: bool)
    ensures
        less == precedes(a@, b@),
{
    let a_chars = chars_of(a);
    let b_chars = chars_of(b);
    let mut i: usize = 0;
    assert(a_chars@.skip(0) =~= a_chars@);
    assert(b_chars@.skip(0) =~= b_chars@);
    while i < a_chars.len() && i < b_chars.len() && a_chars[i] == b_chars[i]
        invariant
            i <= a_chars@.len(),
            i <= b_chars@.len(),
            precedes(a_chars@, b_chars@) == precedes(a_chars@.skip(i as int), b_chars@.skip(i as int)),
        decreases a_chars@.len() - i,
    {
        assert(a_chars@.skip(i as int).drop_first() =~= a_chars@.skip(i + 1));
        assert(b_chars@.skip(i as int).drop_first() =~= b_chars@.skip(i + 1));
        i = i + 1;
    }
    if i >= b_chars.len() {
        false
    } else if i >= a_chars.len() {
        true
    } else {
        a_chars[i] < b_chars[i]
    }
}

/// Texts are ordered by the first character in which they differ, the one with the smaller number
/// first, and a text stands in front of those that it is the beginning of.
pub proof fn law_texts_are_ordered_by_their_first_difference(
    front: Seq<char>,
    a: Seq<char>,
    b: Seq<char>,
)
    requires
        a.len() == 0 || b.len() == 0 || a[0] != b[0],
    ensures
        precedes(front + a, front + b) <==> b.len() > 0 && (a.len() == 0 || (a[0] as int) < (
        b[0] as int)),
    decreases front.len(),
{
    if front.len() > 0 {
        assert((front + a).drop_first() =~= front.drop_first() + a);
        assert((front + b).drop_first() =~= front.drop_first() + b);
        law_texts_are_ordered_by_their_first_difference(front.drop_first(), a, b);
    } else {
        assert(front + a =~= a);
        assert(front + b =~= b);
    }
}

}
