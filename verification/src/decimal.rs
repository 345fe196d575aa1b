//! Decimal integers.

use vstd::prelude::*;
use vstd::string::*;

use crate::text::chars_of;

verus! {

/// A decimal digit.
pub open spec fn is_digit(c: char) -> bool {
    '0' <= c <= '9'
}

/// Whether every character is a decimal digit.
pub open spec fn all_digits(text: Seq<char>) -> bool {
    forall|i: int| 0 <= i < text.len() ==> is_digit(#[trigger] text[i])
}

/// The number that a sequence of digits stands for.
pub open spec fn digits_value(digits: Seq<char>) -> int
    decreases digits.len(),
{
    if digits.len() == 0 {
        0
    } else {
        digits_value(digits.drop_last()) * 10 + (digits.last() as int - '0' as int)
    }
}

/// A text without the plus sign in front of it.
pub open spec fn unsigned_digits(text: Seq<char>) -> Seq<char> {
    if text.len() > 0 && text[0] == '+' {
        text.drop_first()
    } else {
        text
    }
}

/// The non-negative integer that a text spells: digits, at least one, with or without a plus sign
/// in front. `None` where the text spells none or the number is over `limit`.
pub open spec fn spelled(text: Seq<char>, limit: int) -> Option<int> {
    let digits = unsigned_digits(text);
    if digits.len() > 0 && all_digits(digits) && digits_value(digits) <= limit {
        Some(digits_value(digits))
    } else {
        None
    }
}

/// A longer sequence of digits stands for a number that is at least as large.
proof fn lemma_digits_grow(digits: Seq<char>, count: int)
    requires
        all_digits(digits),
        0 <= count <= digits.len(),
    ensures
        0 <= digits_value(digits.take(count)) <= digits_value(digits),
    decreases digits.len(),
{
    if digits.len() > 0 {
        let front = digits.drop_last();
        assert forall|i: int| 0 <= i < front.len() implies is_digit(#[trigger] front[i]) by {
            assert(front[i] == digits[i]);
        }
        assert(is_digit(digits[digits.len() - 1]));
        lemma_digits_grow(front, front.len() as int);
        assert(front.take(front.len() as int) =~= front);
        if count < digits.len() {
            lemma_digits_grow(front, count);
            assert(front.take(count) =~= digits.take(count));
        } else {
            assert(digits.take(count) =~= digits);
        }
    } else {
        assert(digits.take(count) =~= digits);
    }
}

/// The non-negative integer that `text` spells, where it is not over `limit`.
pub fn parse_unsigned(text: &str, limit: u64) -> (value: Option<u64>)
    ensures
        value is Some <==> spelled(text@, limit as int) is Some,
        value matches Some(v) ==> spelled(text@, limit as int) == Some(v as int),
{
    let chars = chars_of(text);
    let mut i: usize = 0;
    if chars.len() > 0 && chars[0] == '+' {
        i = 1;
    }
    let start: usize = i;
    let ghost digits = unsigned_digits(text@);
    assert(digits =~= text@.skip(start as int));
    if i >= chars.len() {
        return None;
    }
    let mut value: u64 = 0;
    while i < chars.len()
        invariant
            chars@ == text@,
            start <= i <= chars@.len(),
            digits == text@.skip(start as int),
            digits == unsigned_digits(text@),
            all_digits(digits.take(i - start)),
            value == digits_value(digits.take(i - start)),
            value <= limit,
        decreases chars@.len() - i,
    {
        let c = chars[i];
        assert(c == digits[i - start]);
        if !('0' <= c && c <= '9') {
            return None;
        }
        let digit: u64 = c as u64 - '0' as u64;
        let ghost longer = digits.take(i - start + 1);
        assert(longer.drop_last() =~= digits.take(i - start));
        assert forall|j: int| 0 <= j < longer.len() implies is_digit(#[trigger] longer[j]) by {
            if j < i - start {
                assert(longer[j] == digits.take(i - start)[j]);
            }
        }
        assert(digits_value(longer) == value * 10 + digit);
        if value > limit / 10 || digit > limit - value * 10 {
            assert(digits_value(longer) > limit);
            assert(spelled(text@, limit as int) is None) by {
                if all_digits(digits) {
                    lemma_digits_grow(digits, i - start + 1);
                }
            }
            return None;
        }
        value = value * 10 + digit;
        i = i + 1;
    }
    assert(digits.take(i - start) =~= digits);
    Some(value)
}

/// The decimal digits of `n`, without leading zeros.
pub open spec fn decimal(n: nat) -> Seq<char>
    decreases n,
{
    if n < 10 {
        seq![(('0' as int) + n) as char]
    } else {
        decimal(n / 10).push((('0' as int) + n % 10) as char)
    }
}

/// Decimal digits are digits.
pub proof fn lemma_decimal_digits(n: nat)
    ensures
        all_digits(decimal(n)),
    decreases n,
{
    if n >= 10 {
        lemma_decimal_digits(n / 10);
    }
}

/// The decimal digits of `n`, without leading zeros.
pub fn to_decimal(n: u64) -> (text: String)
    ensures
        text@ == decimal(n as nat),
    decreases n,
{
    let digit = (48 + (n % 10) as u8) as char;
    if n < 10 {
        let mut text = String::new();
        text.push(digit);
        assert(text@ =~= decimal(n as nat));
        text
    } else {
        let mut text = to_decimal(n / 10);
        text.push(digit);
        text
    }
}

/// Where the run of digits that begins at position `at` ends.
pub open spec fn digits_end(text: Seq<char>, at: int) -> int
    decreases text.len() - at,
{
    if 0 <= at < text.len() && is_digit(text[at]) {
        digits_end(text, at + 1)
    } else {
        at
    }
}

/// Where the fraction of a number ends whose integral digits end at position `at`.
pub open spec fn fraction_end(text: Seq<char>, at: int) -> int {
    if at < text.len() && text[at] == '.' {
        digits_end(text, at + 1)
    } else {
        at
    }
}

/// Whether an exponent stands from position `at` to the end of the text.
pub open spec fn is_exponent(text: Seq<char>, at: int) -> bool {
    let digits = if at + 1 < text.len() && (text[at + 1] == '+' || text[at + 1] == '-') {
        at + 2
    } else {
        at + 1
    };
    &&& text[at] == 'e' || text[at] == 'E'
    &&& digits < text.len()
    &&& digits_end(text, digits) == text.len()
}

/// Whether a text is a number without a sign as JSON writes it: digits without a leading zero, and
/// where they are there a fraction and an exponent, each with at least one digit.
pub open spec fn is_unsigned_number(text: Seq<char>) -> bool {
    let integral = digits_end(text, 0);
    let fraction = fraction_end(text, integral);
    &&& integral > 0
    &&& text[0] == '0' ==> integral == 1
    &&& integral < text.len() && text[integral] == '.' ==> fraction > integral + 1
    &&& fraction == text.len() || is_exponent(text, fraction)
}

/// Whether a text is a number as JSON writes it.
pub open spec fn is_json_number(text: Seq<char>) -> bool {
    if text.len() > 0 && text[0] == '-' {
        is_unsigned_number(text.drop_first())
    } else {
        is_unsigned_number(text)
    }
}

/// A character that may stand in a number.
pub open spec fn is_number_char(c: char) -> bool {
    is_digit(c) || c == '-' || c == '+' || c == '.' || c == 'e' || c == 'E'
}

/// A run of digits does not end before it begins, and holds nothing but digits.
proof fn lemma_digits_end(text: Seq<char>, at: int)
    requires
        0 <= at <= text.len(),
    ensures
        at <= digits_end(text, at) <= text.len(),
        forall|i: int| at <= i < digits_end(text, at) ==> is_digit(#[trigger] text[i]),
    decreases text.len() - at,
{
    if at < text.len() && is_digit(text[at]) {
        lemma_digits_end(text, at + 1);
    }
}

/// A number without a sign is not empty and holds nothing but characters of numbers.
proof fn lemma_unsigned_number_chars(text: Seq<char>)
    requires
        is_unsigned_number(text),
    ensures
        text.len() > 0,
        is_digit(text[0]),
        forall|i: int| 0 <= i < text.len() ==> is_number_char(#[trigger] text[i]),
{
    let integral = digits_end(text, 0);
    lemma_digits_end(text, 0);
    assert(is_digit(text[0]));
    if integral < text.len() && text[integral] == '.' {
        lemma_digits_end(text, integral + 1);
    }
    let fraction = fraction_end(text, integral);
    if fraction < text.len() {
        let digits = if fraction + 1 < text.len() && (text[fraction + 1] == '+' || text[fraction
            + 1] == '-') {
            fraction + 2
        } else {
            fraction + 1
        };
        lemma_digits_end(text, digits);
    }
}

/// A number is not empty, begins with a sign or a digit, and holds nothing but characters of
/// numbers.
pub proof fn lemma_number_chars(text: Seq<char>)
    requires
        is_json_number(text),
    ensures
        text.len() > 0,
        text[0] == '-' || is_digit(text[0]),
        forall|i: int| 0 <= i < text.len() ==> is_number_char(#[trigger] text[i]),
{
    if text.len() > 0 && text[0] == '-' {
        let rest = text.drop_first();
        lemma_unsigned_number_chars(rest);
        assert forall|i: int| 0 <= i < text.len() implies is_number_char(#[trigger] text[i]) by {
            if i > 0 {
                assert(text[i] == rest[i - 1]);
            }
        }
    } else {
        lemma_unsigned_number_chars(text);
    }
}

/// A run of digits up to the end of a text ends there.
proof fn lemma_all_digits_end(text: Seq<char>, at: int)
    requires
        0 <= at <= text.len(),
        all_digits(text),
    ensures
        digits_end(text, at) == text.len(),
    decreases text.len() - at,
{
    if at < text.len() {
        assert(is_digit(text[at]));
        lemma_all_digits_end(text, at + 1);
    }
}

/// Decimal digits begin with no zero, unless they are those of zero.
proof fn lemma_decimal_leads(n: nat)
    ensures
        decimal(n).len() > 0,
        decimal(n)[0] == '0' ==> decimal(n).len() == 1,
        n > 0 ==> decimal(n)[0] != '0',
    decreases n,
{
    if n >= 10 {
        lemma_decimal_leads(n / 10);
    }
}

/// The decimal digits of a number are a number as JSON writes it.
pub proof fn lemma_decimal_is_number(n: nat)
    ensures
        is_json_number(decimal(n)),
{
    let text = decimal(n);
    lemma_decimal_digits(n);
    lemma_decimal_leads(n);
    lemma_all_digits_end(text, 0);
    assert(is_digit(text[0]));
}

/// The decimal digits of a number stand for that number.
pub proof fn law_decimal_digits_have_the_value(n: nat)
    ensures
        digits_value(decimal(n)) == n,
    decreases n,
{
    if n >= 10 {
        law_decimal_digits_have_the_value(n / 10);
        let digits = decimal(n);
        assert(digits.drop_last() =~= decimal(n / 10));
    } else {
        assert(decimal(n).drop_last() =~= Seq::<char>::empty());
        assert(digits_value(Seq::<char>::empty()) == 0);
        assert(decimal(n).last() as int == '0' as int + n);
    }
}

/// A number is read as it is written, with a plus sign in front of it or not, and not at all where
/// it is over the limit.
pub proof fn law_numbers_are_read_as_written(n: nat, limit: int)
    ensures
        n <= limit ==> spelled(decimal(n), limit) == Some(n as int),
        n <= limit ==> spelled(seq!['+'] + decimal(n), limit) == Some(n as int),
        n > limit ==> spelled(decimal(n), limit) is None,
        n > limit ==> spelled(seq!['+'] + decimal(n), limit) is None,
{
    law_decimal_digits_have_the_value(n);
    lemma_decimal_digits(n);
    lemma_decimal_leads(n);
    assert(is_digit(decimal(n)[0]));
    assert((seq!['+'] + decimal(n)).drop_first() =~= decimal(n));
}

/// A text is no number where it holds nothing but a sign, or any character but digits and the plus
/// sign in front of them.
pub proof fn law_other_texts_are_no_numbers(text: Seq<char>, at: int, limit: int)
    requires
        text.len() == 0 || text == seq!['+'] || 0 <= at < text.len() && !(48 <= text[at] as int
            <= 57) && (at > 0 || text[0] != '+'),
    ensures
        spelled(text, limit) is None,
{
    let digits = unsigned_digits(text);
    if text.len() > 0 && text != seq!['+'] {
        if text[0] == '+' {
            assert(digits[at - 1] == text[at]);
            assert(!is_digit(digits[at - 1]));
        } else {
            assert(!is_digit(digits[at]));
        }
    }
}

/// A number that is read is not negative and not over the limit.
pub proof fn law_read_numbers_are_within_the_limit(text: Seq<char>, limit: int)
    ensures
        spelled(text, limit) matches Some(n) ==> 0 <= n <= limit,
{
    let digits = unsigned_digits(text);
    if all_digits(digits) {
        lemma_digits_grow(digits, 0);
        assert(digits_value(digits.take(0)) == 0);
    }
}

}
