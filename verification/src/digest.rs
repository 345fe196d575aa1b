//! SHA-256 digests of bytes, of JSON values and of lists of text fragments.

use vstd::prelude::*;
use vstd::string::*;

use crate::encoding::encode_json;
use crate::encoding;
use crate::json::Json;
use crate::text;

verus! {

/// The 32 bytes of the SHA-256 digest of `bytes`.
pub uninterp spec fn sha256(bytes: Seq<u8>) -> Seq<u8>;

/// `sha2::Sha256::digest`, the digest of the whole input at once. What it is, is a function of
/// the bytes; it always has 32 bytes.
#[verifier::external_body]
fn digest(bytes: &[u8]) -> (result: Vec<u8>)
    ensures
        result@ == sha256(bytes@),
        result@.len() == 32,
{
    <sha2::Sha256 as sha2::Digest>::digest(bytes).to_vec()
}

/// Two lower-case hexadecimal digits for each byte.
pub open spec fn hex(bytes: Seq<u8>) -> Seq<char> {
    Seq::new(
        2 * bytes.len(),
        |i: int|
            if i % 2 == 0 {
                encoding::hex_digit(bytes[i / 2] as int / 16)
            } else {
                encoding::hex_digit(bytes[i / 2] as int % 16)
            },
    )
}

/// The hexadecimal SHA-256 digest of `bytes`.
pub open spec fn fingerprint(bytes: Seq<u8>) -> Seq<char> {
    hex(sha256(bytes))
}

/// A lower-case hexadecimal digit.
fn hex_char(n: u8) -> (c: char)
    requires
        n < 16,
    ensures
        c == encoding::hex_digit(n as int),
{
    if n < 10 {
        (48 + n) as char
    } else {
        (87 + n) as char
    }
}

/// Two lower-case hexadecimal digits for each byte.
pub fn bytes_to_hex(bytes: &[u8]) -> (text: String)
    ensures
        text@ == hex(bytes@),
{
    let mut output = String::new();
    let mut i: usize = 0;
    while i < bytes.len()
        invariant
            i <= bytes@.len(),
            output@ == hex(bytes@.take(i as int)),
        decreases bytes@.len() - i,
    {
        let byte: u8 = bytes[i];
        output.push(hex_char(byte / 16));
        output.push(hex_char(byte % 16));
        i = i + 1;
        assert(output@ =~= hex(bytes@.take(i as int)));
    }
    assert(bytes@.take(i as int) =~= bytes@);
    output
}

/// The hexadecimal SHA-256 digest of `bytes`.
pub fn sha256_hex(bytes: &[u8]) -> (text: String)
    ensures
        text@ == fingerprint(bytes@),
        text@.len() == 64,
{
    bytes_to_hex(digest(bytes).as_slice())
}

/// The digest of a text is that of its UTF-8 bytes.
pub open spec fn text_fingerprint(text: Seq<char>) -> Seq<char> {
    fingerprint(vstd::utf8::encode_utf8(text))
}

/// The hexadecimal SHA-256 digest of the UTF-8 bytes of `text`.
pub fn hash_text(text: &str) -> (hash: String)
    ensures
        hash@ == text_fingerprint(text@),
        hash@.len() == 64,
{
    sha256_hex(text.as_bytes())
}

/// The digest of a JSON value is that of its compact encoding.
pub fn hash_json(value: &Json) -> (hash: String)
    ensures
        hash@ == text_fingerprint(encoding::encoded(value@)),
{
    hash_text(encode_json(value).as_str())
}

/// The last `count` bytes of `n` in base 256, the most significant first.
pub open spec fn big_endian(n: nat, count: nat) -> Seq<u8>
    decreases count,
{
    if count == 0 {
        Seq::empty()
    } else {
        big_endian(n / 256, (count - 1) as nat).push((n % 256) as u8)
    }
}

/// The eight bytes of `n`, the most significant first.
pub open spec fn length_bytes(n: u64) -> Seq<u8> {
    big_endian(n as nat, 8)
}

/// Each fragment in UTF-8 behind its length in bytes.
pub open spec fn framed(fragments: Seq<Seq<char>>) -> Seq<u8>
    decreases fragments.len(),
{
    if fragments.len() == 0 {
        Seq::empty()
    } else {
        framed(fragments.drop_last()) + length_bytes(vstd::utf8::encode_utf8(fragments.last()).len() as u64)
            + vstd::utf8::encode_utf8(fragments.last())
    }
}

/// The digest of a list of fragments.
pub open spec fn fragments_fingerprint(fragments: Seq<Seq<char>>) -> Seq<char> {
    fingerprint(framed(fragments))
}

/// Appends the last `count` bytes of `n`, the most significant first.
fn append_big_endian(bytes: &mut Vec<u8>, n: u64, count: u8)
    ensures
        final(bytes)@ == old(bytes)@ + big_endian(n as nat, count as nat),
    decreases count,
{
    if count > 0 {
        append_big_endian(bytes, n / 256, count - 1);
        bytes.push((n % 256) as u8);
    }
    assert(bytes@ =~= old(bytes)@ + big_endian(n as nat, count as nat));
}

/// The eight bytes of `n`, the most significant first.
pub fn big_endian_bytes(n: u64) -> (bytes: Vec<u8>)
    ensures
        bytes@ == length_bytes(n),
{
    let mut bytes: Vec<u8> = Vec::new();
    append_big_endian(&mut bytes, n, 8);
    assert(bytes@ =~= length_bytes(n));
    bytes
}

/// Appends `addition` to `bytes`.
pub fn append_bytes(bytes: &mut Vec<u8>, addition: &[u8])
    ensures
        final(bytes)@ == old(bytes)@ + addition@,
{
    let mut i: usize = 0;
    while i < addition.len()
        invariant
            i <= addition@.len(),
            bytes@ == old(bytes)@ + addition@.take(i as int),
        decreases addition@.len() - i,
    {
        bytes.push(addition[i]);
        i = i + 1;
        assert(bytes@ =~= old(bytes)@ + addition@.take(i as int));
    }
    assert(addition@.take(i as int) =~= addition@);
}

/// The digest of a list of fragments, each taken with its length.
pub fn hash_raw_fragments(items: &Vec<String>) -> (hash: String)
    ensures
        hash@ == fragments_fingerprint(text::texts(items@)),
{
    let ghost held = text::texts(items@);
    let mut bytes: Vec<u8> = Vec::new();
    let mut i: usize = 0;
    assert(bytes@ =~= framed(held.take(0)));
    while i < items.len()
        invariant
            i <= items@.len(),
            held == text::texts(items@),
            bytes@ == framed(held.take(i as int)),
        decreases items@.len() - i,
    {
        let fragment = items[i].as_str().as_bytes();
        append_big_endian(&mut bytes, fragment.len() as u64, 8);
        append_bytes(&mut bytes, fragment);
        i = i + 1;
        assert(held.take(i as int).drop_last() =~= held.take(i - 1));
        assert(bytes@ =~= framed(held.take(i as int)));
    }
    assert(held.take(i as int) =~= held);
    sha256_hex(bytes.as_slice())
}

/// Whether the length of each fragment in UTF-8 fits in eight bytes.
pub open spec fn lengths_fit(fragments: Seq<Seq<char>>) -> bool {
    forall|i: int|
        0 <= i < fragments.len() ==> vstd::utf8::encode_utf8(#[trigger] fragments[i]).len() <= u64::MAX
}

/// Framing begins with the first fragment.
proof fn lemma_framed_from_first(fragments: Seq<Seq<char>>)
    requires
        fragments.len() > 0,
    ensures
        framed(fragments) == length_bytes(vstd::utf8::encode_utf8(fragments[0]).len() as u64) + vstd::utf8::encode_utf8(
            fragments[0],
        ) + framed(fragments.drop_first()),
    decreases fragments.len(),
{
    let rest = fragments.drop_first();
    if fragments.len() == 1 {
        assert(framed(fragments.drop_last()) =~= Seq::<u8>::empty());
        assert(framed(rest) =~= Seq::<u8>::empty());
    } else {
        lemma_framed_from_first(fragments.drop_last());
        assert(fragments.drop_last().drop_first() =~= rest.drop_last());
    }
    assert(framed(fragments) =~= length_bytes(vstd::utf8::encode_utf8(fragments[0]).len() as u64) + vstd::utf8::encode_utf8(
        fragments[0],
    ) + framed(rest));
}

/// 256 to the power of `count`.
spec fn byte_range(count: nat) -> nat
    decreases count,
{
    if count == 0 {
        1
    } else {
        256 * byte_range((count - 1) as nat)
    }
}

/// `count` bytes stand for one number below 256 to the power of `count`.
proof fn lemma_big_endian_injective(a: nat, b: nat, count: nat)
    requires
        big_endian(a, count) == big_endian(b, count),
        a < byte_range(count),
        b < byte_range(count),
    ensures
        a == b,
        big_endian(a, count).len() == count,
    decreases count,
{
    lemma_big_endian_length(a, count);
    if count > 0 {
        let rest = (count - 1) as nat;
        let (x, y) = (big_endian(a, count), big_endian(b, count));
        assert(x.last() == y.last());
        assert(x.drop_last() =~= big_endian(a / 256, rest));
        assert(y.drop_last() =~= big_endian(b / 256, rest));
        lemma_big_endian_injective(a / 256, b / 256, rest);
    }
}

/// There are as many bytes as asked for.
proof fn lemma_big_endian_length(n: nat, count: nat)
    ensures
        big_endian(n, count).len() == count,
    decreases count,
{
    if count > 0 {
        lemma_big_endian_length(n / 256, (count - 1) as nat);
    }
}

/// Two sequences that are equal are equal part by part, where the parts have equal lengths.
proof fn lemma_equal_parts(
    a1: Seq<u8>,
    a2: Seq<u8>,
    a3: Seq<u8>,
    b1: Seq<u8>,
    b2: Seq<u8>,
    b3: Seq<u8>,
)
    requires
        a1 + a2 + a3 == b1 + b2 + b3,
        a1.len() == b1.len(),
    ensures
        a1 == b1,
        a2.len() == b2.len() ==> a2 == b2 && a3 == b3,
{
    let n = a1.len() as int;
    assert((a1 + a2 + a3).take(n) =~= a1);
    assert((b1 + b2 + b3).take(n) =~= b1);
    if a2.len() == b2.len() {
        let m = n + a2.len();
        assert((a1 + a2 + a3).subrange(n, m) =~= a2);
        assert((b1 + b2 + b3).subrange(n, m) =~= b2);
        assert((a1 + a2 + a3).skip(m) =~= a3);
        assert((b1 + b2 + b3).skip(m) =~= b3);
    }
}

/// No two lists of fragments are hashed as the same bytes: moving text from one fragment to the
/// next, or splitting one in two, changes what is hashed.
pub proof fn law_framing_is_unambiguous(a: Seq<Seq<char>>, b: Seq<Seq<char>>)
    requires
        lengths_fit(a),
        lengths_fit(b),
        framed(a) == framed(b),
    ensures
        a == b,
    decreases a.len(),
{
    if a.len() > 0 {
        lemma_framed_from_first(a);
        lemma_big_endian_length(vstd::utf8::encode_utf8(a[0]).len(), 8);
    }
    if b.len() > 0 {
        lemma_framed_from_first(b);
        lemma_big_endian_length(vstd::utf8::encode_utf8(b[0]).len(), 8);
    }
    if a.len() > 0 && b.len() > 0 {
        let (x, y) = (vstd::utf8::encode_utf8(a[0]), vstd::utf8::encode_utf8(b[0]));
        let (m, n) = (length_bytes(x.len() as u64), length_bytes(y.len() as u64));
        let (r, s) = (framed(a.drop_first()), framed(b.drop_first()));
        lemma_equal_parts(m, x, r, n, y, s);
        assert(byte_range(8) == 0x1_0000_0000_0000_0000) by {
            reveal_with_fuel(byte_range, 9);
        }
        lemma_big_endian_injective(x.len(), y.len(), 8);
        vstd::utf8::encode_utf8_decode_utf8(a[0]);
        vstd::utf8::encode_utf8_decode_utf8(b[0]);
        assert forall|i: int| 0 <= i < a.drop_first().len() implies vstd::utf8::encode_utf8(
            #[trigger] a.drop_first()[i],
        ).len() <= u64::MAX by {
            assert(a.drop_first()[i] == a[i + 1]);
        }
        assert forall|i: int| 0 <= i < b.drop_first().len() implies vstd::utf8::encode_utf8(
            #[trigger] b.drop_first()[i],
        ).len() <= u64::MAX by {
            assert(b.drop_first()[i] == b[i + 1]);
        }
        law_framing_is_unambiguous(a.drop_first(), b.drop_first());
        assert(a =~= seq![a[0]] + a.drop_first());
        assert(b =~= seq![b[0]] + b.drop_first());
    } else {
        assert(a.len() > 0 ==> framed(a).len() >= 8);
        assert(b.len() > 0 ==> framed(b).len() >= 8);
        assert(a.len() == 0 ==> framed(a).len() == 0);
        assert(b.len() == 0 ==> framed(b).len() == 0);
        assert(a =~= b);
    }
}

/// A digest is written in lower-case hexadecimal digits, two for each byte, the higher half of a
/// byte first, so that it tells the bytes.
pub proof fn law_hexadecimal_digits_tell_the_bytes(bytes: Seq<u8>)
    ensures
        hex(bytes).len() == 2 * bytes.len(),
        forall|i: int|
            #![trigger bytes[i]]
            0 <= i < bytes.len() ==> digit_of(hex(bytes)[2 * i]) * 16 + digit_of(
                hex(bytes)[2 * i + 1],
            ) == bytes[i],
        forall|i: int|
            0 <= i < hex(bytes).len() ==> ('0' <= (#[trigger] hex(bytes)[i]) <= '9' || 'a'
                <= hex(bytes)[i] <= 'f'),
{
    assert forall|i: int| #![trigger bytes[i]] 0 <= i < bytes.len() implies digit_of(
        hex(bytes)[2 * i],
    ) * 16 + digit_of(hex(bytes)[2 * i + 1]) == bytes[i] by {
        assert((2 * i) / 2 == i && (2 * i + 1) / 2 == i && (2 * i) % 2 == 0 && (2 * i + 1) % 2 == 1);
        assert(digit_of(hex(bytes)[2 * i]) == bytes[i] as int / 16);
        assert(digit_of(hex(bytes)[2 * i + 1]) == bytes[i] as int % 16);
    }
}

/// The value of a lower-case hexadecimal digit.
pub open spec fn digit_of(c: char) -> int {
    if '0' <= c <= '9' {
        c as int - '0' as int
    } else {
        c as int - 'a' as int + 10
    }
}

/// The digest of a text is that of its UTF-8 bytes: texts that differ have different bytes.
pub proof fn law_texts_are_hashed_as_utf8(a: Seq<char>, b: Seq<char>)
    ensures
        text_fingerprint(a) == hex(sha256(vstd::utf8::encode_utf8(a))),
        vstd::utf8::encode_utf8(a) == vstd::utf8::encode_utf8(b) ==> a == b,
{
    vstd::utf8::encode_utf8_decode_utf8(a);
    vstd::utf8::encode_utf8_decode_utf8(b);
}

/// The digest of a list of fragments is taken over each fragment behind its length in eight bytes,
/// in order: one more fragment adds its length and its bytes.
pub proof fn law_fragments_are_framed_by_their_length(
    fragments: Seq<Seq<char>>,
    fragment: Seq<char>,
)
    ensures
        framed(Seq::empty()).len() == 0,
        framed(fragments.push(fragment)) == framed(fragments) + length_bytes(
            vstd::utf8::encode_utf8(fragment).len() as u64,
        ) + vstd::utf8::encode_utf8(fragment),
        fragments_fingerprint(fragments) == hex(sha256(framed(fragments))),
{
    assert(fragments.push(fragment).drop_last() =~= fragments);
}

/// The number that bytes stand for in base 256, the most significant first.
pub open spec fn number_of(bytes: Seq<u8>) -> nat
    decreases bytes.len(),
{
    if bytes.len() == 0 {
        0
    } else {
        256 * number_of(bytes.drop_last()) + bytes.last() as nat
    }
}

/// The last bytes of a number stand for it where it is small enough.
proof fn lemma_big_endian_value(n: nat, count: nat)
    requires
        n < byte_range(count),
    ensures
        big_endian(n, count).len() == count,
        number_of(big_endian(n, count)) == n,
    decreases count,
{
    if count > 0 {
        let fewer = (count - 1) as nat;
        lemma_big_endian_value(n / 256, fewer);
        assert(big_endian(n, count).drop_last() =~= big_endian(n / 256, fewer));
    }
}

/// A number of 64 bits is written in eight bytes that stand for it, the most significant first.
pub proof fn law_lengths_are_written_in_eight_bytes(n: u64)
    ensures
        length_bytes(n).len() == 8,
        number_of(length_bytes(n)) == n,
{
    reveal_with_fuel(byte_range, 9);
    assert(byte_range(8) == 18446744073709551616);
    lemma_big_endian_value(n as nat, 8);
}

}
