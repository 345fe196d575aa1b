//! An encoding spells one value: values with the same encoding are alike.

use vstd::prelude::*;

use crate::decimal;
use crate::encoding;
use crate::json::{JsonTree, MemberTree};
use crate::json;

verus! {

/// Whether two values are written alike: equal, numbers by their text.
pub open spec fn alike(a: JsonTree, b: JsonTree) -> bool
    decreases a,
{
    match (a, b) {
        (JsonTree::Null, JsonTree::Null) => true,
        (JsonTree::Bool(x), JsonTree::Bool(y)) => x == y,
        (JsonTree::Number(x, _), JsonTree::Number(y, _)) => x == y,
        (JsonTree::Text(x), JsonTree::Text(y)) => x == y,
        (JsonTree::Array(x), JsonTree::Array(y)) => {
            &&& x.len() == y.len()
            &&& forall|i: int| 0 <= i < x.len() ==> alike(#[trigger] x[i], y[i])
        },
        (JsonTree::Object(x), JsonTree::Object(y)) => {
            &&& x.len() == y.len()
            &&& forall|i: int|
                0 <= i < x.len() ==> (#[trigger] x[i]).key == y[i].key && alike(
                    x[i].value,
                    y[i].value,
                )
        },
        _ => false,
    }
}

/// Whether two optional values are both absent, or both there and alike.
pub open spec fn alike_options(a: Option<JsonTree>, b: Option<JsonTree>) -> bool {
    match (a, b) {
        (Some(x), Some(y)) => alike(x, y),
        (None, None) => true,
        _ => false,
    }
}

/// Whether a text is empty or begins with what ends a value.
spec fn is_stop(text: Seq<char>) -> bool {
    text.len() == 0 || text[0] == ',' || text[0] == ']' || text[0] == '}'
}

/// An escaped text is its first character, escaped, and the others.
proof fn lemma_escaped_front(text: Seq<char>)
    requires
        text.len() > 0,
    ensures
        encoding::all_escaped(text) == encoding::escaped(text[0]) + encoding::all_escaped(
            text.drop_first(),
        ),
    decreases text.len(),
{
    if text.len() == 1 {
        assert(text.drop_last() =~= Seq::empty());
        assert(text.drop_first() =~= Seq::empty());
        assert(encoding::all_escaped(text.drop_last()) =~= Seq::empty());
        assert(encoding::all_escaped(text) =~= encoding::escaped(text[0])
            + encoding::all_escaped(text.drop_first()));
    } else {
        lemma_escaped_front(text.drop_last());
        assert(text.drop_last().drop_first() =~= text.drop_first().drop_last());
        assert(encoding::all_escaped(text) =~= encoding::escaped(text[0])
            + encoding::all_escaped(text.drop_first()));
    }
}

/// Hexadecimal digits tell numbers apart.
proof fn lemma_hex_digits_differ(a: int, b: int)
    requires
        0 <= a < 16,
        0 <= b < 16,
        encoding::hex_digit(a) == encoding::hex_digit(b),
    ensures
        a == b,
{
}

/// Escaped characters tell characters apart, whatever follows.
proof fn lemma_escape_prefix(c: char, x: Seq<char>, d: char, y: Seq<char>)
    requires
        encoding::escaped(c) + x == encoding::escaped(d) + y,
    ensures
        c == d,
        x == y,
{
    let (p, q) = (encoding::escaped(c), encoding::escaped(d));
    let (s, t) = (p + x, q + y);
    assert(s[0] == p[0] && t[0] == q[0]);
    if p.len() > 1 {
        assert(s[1] == p[1]);
    }
    if q.len() > 1 {
        assert(t[1] == q[1]);
    }
    if p.len() == 6 && q.len() == 6 {
        assert(s[4] == p[4] && t[4] == q[4] && s[5] == p[5] && t[5] == q[5]);
        lemma_hex_digits_differ(c as int / 16, d as int / 16);
        lemma_hex_digits_differ(c as int % 16, d as int % 16);
        assert(c as int == d as int);
    }
    assert(c == d);
    assert(x =~= s.skip(p.len() as int));
    assert(y =~= t.skip(q.len() as int));
}

/// Escaped texts up to a quote tell texts apart, whatever follows.
proof fn lemma_escaped_prefix(a: Seq<char>, x: Seq<char>, b: Seq<char>, y: Seq<char>)
    requires
        encoding::all_escaped(a) + seq!['"'] + x == encoding::all_escaped(b) + seq!['"'] + y,
    ensures
        a == b,
        x == y,
    decreases a.len(),
{
    let s = encoding::all_escaped(a) + seq!['"'] + x;
    let t = encoding::all_escaped(b) + seq!['"'] + y;
    if a.len() > 0 {
        lemma_escaped_front(a);
        assert(s[0] == encoding::escaped(a[0])[0]);
    }
    if b.len() > 0 {
        lemma_escaped_front(b);
        assert(t[0] == encoding::escaped(b[0])[0]);
    }
    if a.len() == 0 || b.len() == 0 {
        assert(a.len() == 0 && b.len() == 0);
        assert(a =~= b);
        assert(x =~= s.skip(1));
        assert(y =~= t.skip(1));
    } else {
        let u = encoding::all_escaped(a.drop_first()) + seq!['"'] + x;
        let v = encoding::all_escaped(b.drop_first()) + seq!['"'] + y;
        assert(s =~= encoding::escaped(a[0]) + u);
        assert(t =~= encoding::escaped(b[0]) + v);
        lemma_escape_prefix(a[0], u, b[0], v);
        lemma_escaped_prefix(a.drop_first(), x, b.drop_first(), y);
        assert(a =~= seq![a[0]] + a.drop_first());
        assert(b =~= seq![b[0]] + b.drop_first());
    }
}

/// Quoted texts tell texts apart, whatever follows.
proof fn lemma_quoted_prefix(a: Seq<char>, x: Seq<char>, b: Seq<char>, y: Seq<char>)
    requires
        encoding::quoted(a) + x == encoding::quoted(b) + y,
    ensures
        a == b,
        x == y,
{
    let s = encoding::quoted(a) + x;
    let t = encoding::quoted(b) + y;
    assert(s.skip(1) =~= encoding::all_escaped(a) + seq!['"'] + x);
    assert(t.skip(1) =~= encoding::all_escaped(b) + seq!['"'] + y);
    lemma_escaped_prefix(a, x, b, y);
}

/// Numbers tell themselves apart, up to what ends a value.
proof fn lemma_number_prefix(a: Seq<char>, x: Seq<char>, b: Seq<char>, y: Seq<char>)
    requires
        decimal::is_json_number(a),
        decimal::is_json_number(b),
        is_stop(x),
        is_stop(y),
        a + x == b + y,
    ensures
        a == b,
        x == y,
{
    decimal::lemma_number_chars(a);
    decimal::lemma_number_chars(b);
    let s = a + x;
    let t = b + y;
    if a.len() < b.len() {
        assert(s[a.len() as int] == x[0]);
        assert(t[a.len() as int] == b[a.len() as int]);
        assert(decimal::is_number_char(b[a.len() as int]));
    }
    if b.len() < a.len() {
        assert(t[b.len() as int] == y[0]);
        assert(s[b.len() as int] == a[b.len() as int]);
        assert(decimal::is_number_char(a[b.len() as int]));
    }
    assert(a =~= s.take(a.len() as int));
    assert(b =~= t.take(b.len() as int));
    assert(x =~= s.skip(a.len() as int));
    assert(y =~= t.skip(b.len() as int));
}

/// What an encoding begins with: a number that tells the kind of value.
spec fn kind_of(c: char) -> int {
    if c == 'n' {
        0
    } else if c == 't' {
        1
    } else if c == 'f' {
        2
    } else if c == '"' {
        3
    } else if c == '[' {
        4
    } else if c == '{' {
        5
    } else if c == '-' || decimal::is_digit(c) {
        6
    } else {
        7
    }
}

/// The kind of a value.
spec fn value_kind(value: JsonTree) -> int {
    match value {
        JsonTree::Null => 0,
        JsonTree::Bool(b) => if b {
            1
        } else {
            2
        },
        JsonTree::Text(_) => 3,
        JsonTree::Array(_) => 4,
        JsonTree::Object(_) => 5,
        JsonTree::Number(_, _) => 6,
    }
}

/// An encoding is not empty and begins with what tells the kind of its value.
proof fn lemma_kind(value: JsonTree)
    requires
        encoding::has_json_numbers(value),
    ensures
        encoding::encoded(value).len() > 0,
        kind_of(encoding::encoded(value)[0]) == value_kind(value),
{
    reveal_strlit("null");
    reveal_strlit("true");
    reveal_strlit("false");
    if let JsonTree::Number(text, _) = value {
        decimal::lemma_number_chars(text);
    }
}

/// Parts with commas between them are the first part and the others.
proof fn lemma_commas_front(parts: Seq<Seq<char>>)
    requires
        parts.len() > 1,
    ensures
        encoding::comma_separated(parts) == parts[0] + seq![','] + encoding::comma_separated(
            parts.drop_first(),
        ),
    decreases parts.len(),
{
    let rest = parts.drop_first();
    if parts.len() == 2 {
        assert(encoding::comma_separated(parts.drop_last()) == parts[0]);
        assert(encoding::comma_separated(rest) == parts[1]);
    } else {
        lemma_commas_front(parts.drop_last());
        assert(parts.drop_last().drop_first() =~= rest.drop_last());
        assert(encoding::comma_separated(parts) =~= parts[0] + seq![',']
            + encoding::comma_separated(rest));
    }
}

/// What follows the first of the parts in a list that `close` ends, with `after` behind it.
spec fn behind_first(parts: Seq<Seq<char>>, close: char, after: Seq<char>) -> Seq<char> {
    if parts.len() == 1 {
        seq![close] + after
    } else {
        seq![','] + (encoding::comma_separated(parts.drop_first()) + seq![close] + after)
    }
}

/// A list is its first part and what follows it.
proof fn lemma_list_front(parts: Seq<Seq<char>>, close: char, after: Seq<char>)
    requires
        parts.len() > 0,
    ensures
        encoding::comma_separated(parts) + seq![close] + after == parts[0] + behind_first(
            parts,
            close,
            after,
        ),
{
    if parts.len() > 1 {
        lemma_commas_front(parts);
    }
    assert(encoding::comma_separated(parts) + seq![close] + after =~= parts[0] + behind_first(
        parts,
        close,
        after,
    ));
}

/// Encodings tell values apart, up to what ends a value.
proof fn lemma_value_prefix(a: JsonTree, x: Seq<char>, b: JsonTree, y: Seq<char>)
    requires
        encoding::has_json_numbers(a),
        encoding::has_json_numbers(b),
        is_stop(x),
        is_stop(y),
        encoding::encoded(a) + x == encoding::encoded(b) + y,
    ensures
        alike(a, b),
        x == y,
    decreases a,
{
    let (p, q) = (encoding::encoded(a), encoding::encoded(b));
    let (s, t) = (p + x, q + y);
    lemma_kind(a);
    lemma_kind(b);
    assert(s[0] == p[0] && t[0] == q[0]);
    assert(value_kind(a) == value_kind(b));
    match (a, b) {
        (JsonTree::Number(m, _), JsonTree::Number(n, _)) => {
            lemma_number_prefix(m, x, n, y);
        },
        (JsonTree::Text(m), JsonTree::Text(n)) => {
            lemma_quoted_prefix(m, x, n, y);
        },
        (JsonTree::Array(m), JsonTree::Array(n)) => {
            let (f, g) = (encoding::all_encoded(m), encoding::all_encoded(n));
            assert(s.skip(1) =~= encoding::comma_separated(f) + seq![']'] + x);
            assert(t.skip(1) =~= encoding::comma_separated(g) + seq![']'] + y);
            lemma_items_prefix(m, x, n, y);
        },
        (JsonTree::Object(m), JsonTree::Object(n)) => {
            let (f, g) = (encoding::all_encoded_members(m), encoding::all_encoded_members(n));
            assert(s.skip(1) =~= encoding::comma_separated(f) + seq!['}'] + x);
            assert(t.skip(1) =~= encoding::comma_separated(g) + seq!['}'] + y);
            lemma_members_prefix(m, x, n, y);
        },
        _ => {
            assert(p == q);
            assert(x =~= s.skip(p.len() as int));
            assert(y =~= t.skip(q.len() as int));
        },
    }
}

/// The encodings of the items of an array tell them apart.
proof fn lemma_items_prefix(a: Seq<JsonTree>, x: Seq<char>, b: Seq<JsonTree>, y: Seq<char>)
    requires
        forall|i: int| 0 <= i < a.len() ==> encoding::has_json_numbers(#[trigger] a[i]),
        forall|i: int| 0 <= i < b.len() ==> encoding::has_json_numbers(#[trigger] b[i]),
        encoding::comma_separated(encoding::all_encoded(a)) + seq![']'] + x
            == encoding::comma_separated(encoding::all_encoded(b)) + seq![']'] + y,
    ensures
        a.len() == b.len(),
        forall|i: int| 0 <= i < a.len() ==> alike(#[trigger] a[i], b[i]),
        x == y,
    decreases a,
{
    let (f, g) = (encoding::all_encoded(a), encoding::all_encoded(b));
    let s = encoding::comma_separated(f) + seq![']'] + x;
    let t = encoding::comma_separated(g) + seq![']'] + y;
    encoding::lemma_all_encoded(a);
    encoding::lemma_all_encoded(b);
    if a.len() > 0 {
        lemma_list_front(f, ']', x);
        assert(encoding::has_json_numbers(a[0]));
        lemma_kind(a[0]);
        assert(s[0] == f[0][0]);
    }
    if b.len() > 0 {
        lemma_list_front(g, ']', y);
        assert(encoding::has_json_numbers(b[0]));
        lemma_kind(b[0]);
        assert(t[0] == g[0][0]);
    }
    if a.len() == 0 || b.len() == 0 {
        assert(kind_of(']') == 7);
        assert(a.len() == 0 && b.len() == 0);
        assert(x =~= s.skip(1));
        assert(y =~= t.skip(1));
    } else {
        let (u, v) = (behind_first(f, ']', x), behind_first(g, ']', y));
        lemma_value_prefix(a[0], u, b[0], v);
        assert(u[0] == v[0]);
        if a.len() == 1 {
            assert(x =~= u.skip(1));
            assert(y =~= v.skip(1));
        } else {
            let (m, n) = (a.drop_first(), b.drop_first());
            encoding::lemma_all_encoded(m);
            encoding::lemma_all_encoded(n);
            assert(f.drop_first() =~= encoding::all_encoded(m));
            assert(g.drop_first() =~= encoding::all_encoded(n));
            assert(u.skip(1) =~= encoding::comma_separated(f.drop_first()) + seq![']'] + x);
            assert(v.skip(1) =~= encoding::comma_separated(g.drop_first()) + seq![']'] + y);
            lemma_items_prefix(m, x, n, y);
            assert forall|i: int| 0 <= i < a.len() implies alike(#[trigger] a[i], b[i]) by {
                if i > 0 {
                    assert(a[i] == m[i - 1] && b[i] == n[i - 1]);
                }
            }
        }
    }
}

/// The encodings of the members of an object tell them apart.
proof fn lemma_members_prefix(a: Seq<MemberTree>, x: Seq<char>, b: Seq<MemberTree>, y: Seq<char>)
    requires
        forall|i: int| 0 <= i < a.len() ==> encoding::has_json_numbers((#[trigger] a[i]).value),
        forall|i: int| 0 <= i < b.len() ==> encoding::has_json_numbers((#[trigger] b[i]).value),
        encoding::comma_separated(encoding::all_encoded_members(a)) + seq!['}'] + x
            == encoding::comma_separated(encoding::all_encoded_members(b)) + seq!['}'] + y,
    ensures
        a.len() == b.len(),
        forall|i: int|
            0 <= i < a.len() ==> (#[trigger] a[i]).key == b[i].key && alike(a[i].value, b[i].value),
        x == y,
    decreases a,
{
    let (f, g) = (encoding::all_encoded_members(a), encoding::all_encoded_members(b));
    let s = encoding::comma_separated(f) + seq!['}'] + x;
    let t = encoding::comma_separated(g) + seq!['}'] + y;
    encoding::lemma_all_encoded_members(a);
    encoding::lemma_all_encoded_members(b);
    if a.len() > 0 {
        lemma_list_front(f, '}', x);
        assert(f[0] == encoding::encoded_member(a[0]));
        assert(s[0] == f[0][0]);
    }
    if b.len() > 0 {
        lemma_list_front(g, '}', y);
        assert(g[0] == encoding::encoded_member(b[0]));
        assert(t[0] == g[0][0]);
    }
    if a.len() == 0 || b.len() == 0 {
        assert(a.len() == 0 && b.len() == 0);
        assert(x =~= s.skip(1));
        assert(y =~= t.skip(1));
    } else {
        let (u, v) = (behind_first(f, '}', x), behind_first(g, '}', y));
        let (k, l) = (a[0].key, b[0].key);
        let (c, d) = (encoding::encoded(a[0].value), encoding::encoded(b[0].value));
        assert(s =~= encoding::quoted(k) + (seq![':'] + (c + u)));
        assert(t =~= encoding::quoted(l) + (seq![':'] + (d + v)));
        lemma_quoted_prefix(k, seq![':'] + (c + u), l, seq![':'] + (d + v));
        assert((seq![':'] + (c + u)).skip(1) =~= c + u);
        assert((seq![':'] + (d + v)).skip(1) =~= d + v);
        assert(encoding::has_json_numbers(a[0].value));
        assert(encoding::has_json_numbers(b[0].value));
        assert(decreases_to!(a => a[0]));
        assert(decreases_to!(a[0] => a[0].value));
        lemma_value_prefix(a[0].value, u, b[0].value, v);
        assert(u[0] == v[0]);
        if a.len() == 1 {
            assert(x =~= u.skip(1));
            assert(y =~= v.skip(1));
        } else {
            let (m, n) = (a.drop_first(), b.drop_first());
            encoding::lemma_all_encoded_members(m);
            encoding::lemma_all_encoded_members(n);
            assert(f.drop_first() =~= encoding::all_encoded_members(m));
            assert(g.drop_first() =~= encoding::all_encoded_members(n));
            assert(u.skip(1) =~= encoding::comma_separated(f.drop_first()) + seq!['}'] + x);
            assert(v.skip(1) =~= encoding::comma_separated(g.drop_first()) + seq!['}'] + y);
            lemma_members_prefix(m, x, n, y);
            assert forall|i: int| 0 <= i < a.len() implies (#[trigger] a[i]).key == b[i].key
                && alike(a[i].value, b[i].value) by {
                if i > 0 {
                    assert(a[i] == m[i - 1] && b[i] == n[i - 1]);
                }
            }
        }
    }
}

/// Values with the same encoding are alike, where their numbers are numbers as JSON writes them.
pub proof fn law_encoding_spells_one_value(a: JsonTree, b: JsonTree)
    requires
        encoding::has_json_numbers(a),
        encoding::has_json_numbers(b),
        encoding::encoded(a) == encoding::encoded(b),
    ensures
        alike(a, b),
{
    let none = Seq::<char>::empty();
    assert(encoding::encoded(a) + none =~= encoding::encoded(b) + none);
    lemma_value_prefix(a, none, b, none);
}

/// In objects that are alike alike values are found.
pub proof fn lemma_lookup_alike(a: Seq<MemberTree>, b: Seq<MemberTree>, key: Seq<char>)
    requires
        alike(JsonTree::Object(a), JsonTree::Object(b)),
    ensures
        alike_options(json::lookup(a, key), json::lookup(b, key)),
    decreases a.len(),
{
    if a.len() > 0 {
        let (m, n) = (a.drop_last(), b.drop_last());
        assert(a[a.len() - 1].key == b[b.len() - 1].key);
        assert forall|i: int| 0 <= i < m.len() implies (#[trigger] m[i]).key == n[i].key && alike(
            m[i].value,
            n[i].value,
        ) by {
            assert(m[i] == a[i] && n[i] == b[i]);
        }
        lemma_lookup_alike(m, n, key);
    }
}

}
