//! The keys that a JSON object is written with. A parsed object keeps one member for each key;
//! whether a key was written more than once is seen only in the text.

use vstd::prelude::*;
use vstd::string::*;

use crate::decimal;
use crate::encoding;
use crate::json::{JsonTree, MemberTree};
use crate::json;
use crate::parsing::parse_json;
use crate::parsing;
use crate::text::{chars_of, same_text};
use crate::text;

verus! {

/// Where a walk over the text of an object stands: how deep it is nested, whether it is inside a
/// string, and there behind a backslash, whether the next string at the top level is a key, the
/// key that it is inside of, and the keys that it has passed, each as it is written.
pub struct Walk {
    pub depth: nat,
    pub quoted: bool,
    pub escaped: bool,
    pub key_next: bool,
    pub token: Option<Seq<char>>,
    pub keys: Seq<Seq<char>>,
}

/// The walk before the first character.
pub open spec fn start() -> Walk {
    Walk {
        depth: 0,
        quoted: false,
        escaped: false,
        key_next: false,
        token: None,
        keys: Seq::empty(),
    }
}

/// The token with one more character.
pub open spec fn longer(token: Option<Seq<char>>, c: char) -> Option<Seq<char>> {
    match token {
        Some(token) => Some(token.push(c)),
        None => None,
    }
}

/// The walk after the character `c`.
pub open spec fn step(walk: Walk, c: char) -> Walk {
    if walk.quoted {
        if walk.escaped {
            Walk { escaped: false, token: longer(walk.token, c), ..walk }
        } else if c == '\\' {
            Walk { escaped: true, token: longer(walk.token, c), ..walk }
        } else if c == '"' {
            Walk {
                quoted: false,
                token: None,
                keys: match walk.token {
                    Some(token) => walk.keys.push(token.push(c)),
                    None => walk.keys,
                },
                ..walk
            }
        } else {
            Walk { token: longer(walk.token, c), ..walk }
        }
    } else if c == '"' {
        if walk.depth == 1 && walk.key_next {
            Walk { quoted: true, key_next: false, token: Some(seq!['"']), ..walk }
        } else {
            Walk { quoted: true, ..walk }
        }
    } else if c == '{' || c == '[' {
        Walk { depth: walk.depth + 1, key_next: walk.key_next || walk.depth == 0, ..walk }
    } else if c == '}' || c == ']' {
        if walk.depth > 0 {
            Walk { depth: (walk.depth - 1) as nat, ..walk }
        } else {
            walk
        }
    } else if c == ',' && walk.depth == 1 {
        Walk { key_next: true, ..walk }
    } else {
        walk
    }
}

/// The walk `walk` after the text `text`.
pub open spec fn onward(walk: Walk, text: Seq<char>) -> Walk
    decreases text.len(),
{
    if text.len() == 0 {
        walk
    } else {
        step(onward(walk, text.drop_last()), text.last())
    }
}

/// The walk after the whole text.
pub open spec fn walked(text: Seq<char>) -> Walk {
    onward(start(), text)
}

/// Whether a key as it is written spells `key`.
pub open spec fn spells(token: Seq<char>, key: Seq<char>) -> bool {
    parsing::parsed(token) == Some(JsonTree::Text(key))
}

/// Whether the object that `text` spells is written with the key `key` more than once.
pub open spec fn is_repeated(text: Seq<char>, key: Seq<char>) -> bool {
    exists|i: int, j: int|
        0 <= i < j < walked(text).keys.len() && spells(#[trigger] walked(text).keys[i], key)
            && spells(#[trigger] walked(text).keys[j], key)
}

/// The keys at the top level of an object, each as it is written.
pub(crate) fn written_keys(object: &str) -> (keys: Vec<String>)
    ensures
        text::texts(keys@) == walked(object@).keys,
{
    broadcast use text::lemma_texts_push;

    let chars = chars_of(object);
    let mut depth: usize = 0;
    let mut quoted = false;
    let mut escaped = false;
    let mut key_next = false;
    let mut in_key = false;
    let mut token = String::new();
    let mut keys: Vec<String> = Vec::new();
    let mut i: usize = 0;
    assert(text::texts(keys@) =~= Seq::empty());
    while i < chars.len()
        invariant
            chars@ == object@,
            i <= chars@.len(),
            depth <= i,
            walked(object@.take(i as int)) == (Walk {
                depth: depth as nat,
                quoted,
                escaped,
                key_next,
                token: if in_key {
                    Some(token@)
                } else {
                    None
                },
                keys: text::texts(keys@),
            }),
        decreases chars@.len() - i,
    {
        let c = chars[i];
        assert(object@.take(i + 1).drop_last() =~= object@.take(i as int));
        let ghost after = step(walked(object@.take(i as int)), c);
        if quoted {
            if in_key {
                token.push(c);
            }
            if escaped {
                escaped = false;
            } else if c == '\\' {
                escaped = true;
            } else if c == '"' {
                quoted = false;
                if in_key {
                    in_key = false;
                    keys.push(token);
                    token = String::new();
                }
            }
        } else if c == '"' {
            quoted = true;
            if depth == 1 && key_next {
                key_next = false;
                in_key = true;
                token = String::new();
                token.push('"');
                assert(token@ =~= seq!['"']);
            }
        } else if c == '{' || c == '[' {
            if depth == 0 {
                key_next = true;
            }
            depth = depth + 1;
        } else if c == '}' || c == ']' {
            if depth > 0 {
                depth = depth - 1;
            }
        } else if c == ',' && depth == 1 {
            key_next = true;
        }
        i = i + 1;
        assert(walked(object@.take(i as int)) == after);
        assert(after.depth == depth);
        assert(after.quoted == quoted);
        assert(after.escaped == escaped);
        assert(after.key_next == key_next);
        assert(after.token == if in_key { Some(token@) } else { None });
        assert(after.keys == text::texts(keys@));
    }
    assert(object@.take(i as int) =~= object@);
    keys
}

/// Whether a key as it is written spells `key`.
fn spells_key(token: &str, key: &str) -> (result: bool)
    ensures
        result == spells(token@, key@),
        parsing::reads_back(token@, parsing::parsed(token@)),
{
    match parse_json(token) {
        Some(value) => match value.as_text() {
            Some(text) => same_text(text, key),
            None => false,
        },
        None => false,
    }
}

/// Whether no two members have the same key.
pub open spec fn are_distinct(members: Seq<MemberTree>) -> bool {
    forall|i: int, j: int|
        0 <= i < j < members.len() ==> (#[trigger] members[i]).key != (#[trigger] members[j]).key
}

/// Whether the object that `object` spells is written with the key `key` more than once. None is
/// in the compact encoding of an object with distinct keys.
pub fn is_key_repeated(object: &str, key: &str) -> (repeated: bool)
    ensures
        repeated == is_repeated(object@, key@),
        forall|members: Seq<MemberTree>|
            object@ == #[trigger] encoding::encoded(JsonTree::Object(members))
                && encoding::has_json_numbers(JsonTree::Object(members)) && are_distinct(members)
                ==> !repeated,
{
    let keys = written_keys(object);
    let ghost held = walked(object@).keys;
    let mut first: Option<usize> = None;
    let mut i: usize = 0;
    while i < keys.len()
        invariant
            i <= keys@.len(),
            held == walked(object@).keys,
            held == text::texts(keys@),
            first is None ==> forall|j: int| 0 <= j < i ==> !spells(#[trigger] held[j], key@),
            first matches Some(f) ==> f < i && spells(held[f as int], key@) && forall|j: int|
                0 <= j < i && j != f ==> !spells(#[trigger] held[j], key@),
            first matches Some(f) ==> parsing::reads_back(
                held[f as int],
                parsing::parsed(held[f as int]),
            ),
        decreases keys@.len() - i,
    {
        if spells_key(keys[i].as_str(), key) {
            assert(spells(held[i as int], key@));
            if let Some(f) = first {
                assert forall|members: Seq<MemberTree>|
                    object@ == #[trigger] encoding::encoded(JsonTree::Object(members))
                        && encoding::has_json_numbers(
                        JsonTree::Object(members),
                    ) implies !are_distinct(members) by {
                    lemma_walked_encoding(members);
                    assert(held == quoted_keys(members));
                    assert(held.len() == members.len());
                    assert(held[f as int] == encoding::encoded(
                        JsonTree::Text(members[f as int].key),
                    ));
                    assert(held[i as int] == encoding::encoded(
                        JsonTree::Text(members[i as int].key),
                    ));
                    assert(members[f as int].key == members[i as int].key);
                }
                return true;
            }
            first = Some(i);
        }
        i = i + 1;
    }
    false
}

/// A walk over one text and then another is a walk over both.
proof fn lemma_onward_joined(walk: Walk, a: Seq<char>, b: Seq<char>)
    ensures
        onward(walk, a + b) == onward(onward(walk, a), b),
    decreases b.len(),
{
    if b.len() == 0 {
        assert(a + b =~= a);
    } else {
        assert((a + b).drop_last() =~= a + b.drop_last());
        lemma_onward_joined(walk, a, b.drop_last());
    }
}

/// A walk over one character is a step.
proof fn lemma_onward_one(walk: Walk, c: char)
    ensures
        onward(walk, seq![c]) == step(walk, c),
{
    assert(seq![c].drop_last() =~= Seq::empty());
    assert(onward(walk, seq![c].drop_last()) == walk);
}

/// The token behind the characters `added`.
spec fn extended(token: Option<Seq<char>>, added: Seq<char>) -> Option<Seq<char>> {
    match token {
        Some(token) => Some(token + added),
        None => None,
    }
}

/// Inside a string a walk passes an escaped character.
proof fn lemma_onward_escaped(walk: Walk, c: char)
    requires
        walk.quoted,
        !walk.escaped,
    ensures
        onward(walk, encoding::escaped(c)) == (Walk {
            token: extended(walk.token, encoding::escaped(c)),
            ..walk
        }),
{
    let text = encoding::escaped(c);
    let result = onward(walk, text);
    if text.len() == 1 {
        lemma_onward_one(walk, c);
    } else if text.len() == 2 {
        assert(text =~= seq![text[0]] + seq![text[1]]);
        lemma_onward_joined(walk, seq![text[0]], seq![text[1]]);
        lemma_onward_one(walk, text[0]);
        lemma_onward_one(step(walk, text[0]), text[1]);
    } else {
        let (first, rest) = (text.take(2), text.skip(2));
        assert(text =~= first + rest);
        assert(first =~= seq!['\\'] + seq!['u']);
        lemma_onward_joined(walk, first, rest);
        lemma_onward_joined(walk, seq!['\\'], seq!['u']);
        lemma_onward_one(walk, '\\');
        lemma_onward_one(step(walk, '\\'), 'u');
        let inside = step(step(walk, '\\'), 'u');
        lemma_onward_inside(inside, rest);
    }
    if let Some(token) = walk.token {
        assert(result.token->0 =~= token + text);
    }
}

/// Inside a string a walk passes characters that are neither quotes nor backslashes.
proof fn lemma_onward_inside(walk: Walk, text: Seq<char>)
    requires
        walk.quoted,
        !walk.escaped,
        forall|i: int| 0 <= i < text.len() ==> #[trigger] text[i] != '"' && text[i] != '\\',
    ensures
        onward(walk, text) == (Walk { token: extended(walk.token, text), ..walk }),
    decreases text.len(),
{
    if text.len() > 0 {
        let front = text.drop_last();
        assert forall|i: int| 0 <= i < front.len() implies #[trigger] front[i] != '"' && front[i]
            != '\\' by {
            assert(front[i] == text[i]);
        }
        lemma_onward_inside(walk, front);
        assert(text[text.len() - 1] != '"');
    }
    if let Some(token) = walk.token {
        assert(onward(walk, text).token->0 =~= token + text);
    }
}

/// Inside a string a walk passes escaped characters.
proof fn lemma_onward_all_escaped(walk: Walk, text: Seq<char>)
    requires
        walk.quoted,
        !walk.escaped,
    ensures
        onward(walk, encoding::all_escaped(text)) == (Walk {
            token: extended(walk.token, encoding::all_escaped(text)),
            ..walk
        }),
    decreases text.len(),
{
    let whole = encoding::all_escaped(text);
    if text.len() > 0 {
        let front = encoding::all_escaped(text.drop_last());
        lemma_onward_all_escaped(walk, text.drop_last());
        lemma_onward_joined(walk, front, encoding::escaped(text.last()));
        lemma_onward_escaped(onward(walk, front), text.last());
    }
    if let Some(token) = walk.token {
        assert(onward(walk, whole).token->0 =~= token + whole);
    }
}

/// Whether a walk stands between tokens.
spec fn is_settled(walk: Walk) -> bool {
    !walk.quoted && !walk.escaped && walk.token is None
}

/// A walk passes a string: it keeps it where it is a key and is otherwise as before.
proof fn lemma_onward_quoted(walk: Walk, text: Seq<char>)
    requires
        is_settled(walk),
    ensures
        onward(walk, encoding::quoted(text)) == if walk.depth == 1 && walk.key_next {
            Walk { key_next: false, keys: walk.keys.push(encoding::quoted(text)), ..walk }
        } else {
            walk
        },
{
    let inner = encoding::all_escaped(text);
    let open = step(walk, '"');
    lemma_onward_joined(walk, seq!['"'] + inner, seq!['"']);
    lemma_onward_joined(walk, seq!['"'], inner);
    lemma_onward_one(walk, '"');
    lemma_onward_all_escaped(open, text);
    lemma_onward_one(onward(open, inner), '"');
    assert((seq!['"'] + inner).push('"') =~= encoding::quoted(text));
}

/// Whether a character is no punctuation of JSON.
spec fn is_inert(c: char) -> bool {
    c != '"' && c != '{' && c != '[' && c != '}' && c != ']' && c != ','
}

/// A walk is as before behind characters that are no punctuation.
proof fn lemma_onward_inert(walk: Walk, text: Seq<char>)
    requires
        is_settled(walk),
        forall|i: int| 0 <= i < text.len() ==> is_inert(#[trigger] text[i]),
    ensures
        onward(walk, text) == walk,
    decreases text.len(),
{
    if text.len() > 0 {
        let front = text.drop_last();
        assert forall|i: int| 0 <= i < front.len() implies is_inert(#[trigger] front[i]) by {
            assert(front[i] == text[i]);
        }
        lemma_onward_inert(walk, front);
        assert(is_inert(text[text.len() - 1]));
    }
}

/// A walk is as before behind a value that is no key.
proof fn lemma_onward_value(walk: Walk, value: JsonTree)
    requires
        is_settled(walk),
        walk.depth > 0,
        walk.depth > 1 || !walk.key_next,
        encoding::has_json_numbers(value),
    ensures
        onward(walk, encoding::encoded(value)) == walk,
    decreases value,
{
    match value {
        JsonTree::Null => {
            reveal_strlit("null");
            lemma_onward_inert(walk, "null"@);
        },
        JsonTree::Bool(b) => {
            reveal_strlit("true");
            reveal_strlit("false");
            lemma_onward_inert(walk, encoding::encoded(value));
        },
        JsonTree::Number(text, _) => {
            decimal::lemma_number_chars(text);
            assert forall|i: int| 0 <= i < text.len() implies is_inert(#[trigger] text[i]) by {
                assert(decimal::is_number_char(text[i]));
            }
            lemma_onward_inert(walk, text);
        },
        JsonTree::Text(text) => {
            lemma_onward_quoted(walk, text);
        },
        JsonTree::Array(items) => {
            let inner = encoding::comma_separated(encoding::all_encoded(items));
            let deeper = Walk { depth: walk.depth + 1, ..walk };
            lemma_onward_values(deeper, items);
            lemma_onward_enclosed(walk, '[', inner, ']');
        },
        JsonTree::Object(members) => {
            let inner = encoding::comma_separated(encoding::all_encoded_members(members));
            let deeper = Walk { depth: walk.depth + 1, ..walk };
            lemma_onward_members(deeper, members);
            lemma_onward_enclosed(walk, '{', inner, '}');
        },
    }
}

/// A walk is as before behind brackets, where it is as before behind what stands between them.
proof fn lemma_onward_enclosed(walk: Walk, open: char, inner: Seq<char>, close: char)
    requires
        is_settled(walk),
        walk.depth > 0,
        open == '[' || open == '{',
        close == ']' || close == '}',
        onward(Walk { depth: walk.depth + 1, ..walk }, inner) == (Walk {
            depth: walk.depth + 1,
            ..walk
        }),
    ensures
        onward(walk, seq![open] + inner + seq![close]) == walk,
{
    lemma_onward_joined(walk, seq![open] + inner, seq![close]);
    lemma_onward_joined(walk, seq![open], inner);
    lemma_onward_one(walk, open);
    lemma_onward_one(Walk { depth: walk.depth + 1, ..walk }, close);
}

/// Below the top level a walk is as before behind a list of values.
proof fn lemma_onward_values(walk: Walk, items: Seq<JsonTree>)
    requires
        is_settled(walk),
        walk.depth > 1,
        forall|i: int| 0 <= i < items.len() ==> encoding::has_json_numbers(#[trigger] items[i]),
    ensures
        onward(walk, encoding::comma_separated(encoding::all_encoded(items))) == walk,
    decreases items,
{
    if items.len() > 0 {
        let front = items.drop_last();
        let parts = encoding::all_encoded(items);
        assert forall|i: int| 0 <= i < front.len() implies encoding::has_json_numbers(
            #[trigger] front[i],
        ) by {
            assert(front[i] == items[i]);
        }
        lemma_onward_values(walk, front);
        assert(encoding::has_json_numbers(items[items.len() - 1]));
        lemma_onward_value(walk, items.last());
        assert(parts.drop_last() =~= encoding::all_encoded(front));
        lemma_onward_appended(walk, parts);
    }
}

/// Below the top level a walk is as before behind the members of an object.
proof fn lemma_onward_members(walk: Walk, members: Seq<MemberTree>)
    requires
        is_settled(walk),
        walk.depth > 1,
        forall|i: int|
            0 <= i < members.len() ==> encoding::has_json_numbers((#[trigger] members[i]).value),
    ensures
        onward(walk, encoding::comma_separated(encoding::all_encoded_members(members))) == walk,
    decreases members,
{
    if members.len() > 0 {
        let front = members.drop_last();
        let last = members.last();
        let parts = encoding::all_encoded_members(members);
        assert forall|i: int| 0 <= i < front.len() implies encoding::has_json_numbers(
            (#[trigger] front[i]).value,
        ) by {
            assert(front[i] == members[i]);
        }
        lemma_onward_members(walk, front);
        assert(encoding::has_json_numbers(members[members.len() - 1].value));
        assert(decreases_to!(members => last));
        assert(decreases_to!(last => last.value));
        lemma_onward_value(walk, last.value);
        lemma_onward_quoted(walk, last.key);
        lemma_onward_one(walk, ':');
        lemma_onward_joined(walk, encoding::quoted(last.key), seq![':']);
        lemma_onward_joined(
            walk,
            encoding::quoted(last.key) + seq![':'],
            encoding::encoded(last.value),
        );
        assert(parts.drop_last() =~= encoding::all_encoded_members(front));
        lemma_onward_appended(walk, parts);
    }
}

/// Below the top level a walk is as before behind a list, where it is as before behind all parts
/// but the last and behind the last.
proof fn lemma_onward_appended(walk: Walk, parts: Seq<Seq<char>>)
    requires
        is_settled(walk),
        walk.depth > 1,
        parts.len() > 0,
        onward(walk, encoding::comma_separated(parts.drop_last())) == walk,
        onward(walk, parts.last()) == walk,
    ensures
        onward(walk, encoding::comma_separated(parts)) == walk,
{
    if parts.len() > 1 {
        let front = encoding::comma_separated(parts.drop_last());
        lemma_onward_joined(walk, front, seq![',']);
        lemma_onward_one(walk, ',');
        lemma_onward_joined(walk, front + seq![','], parts.last());
    }
}

/// The keys of members, each as it is written.
pub open spec fn quoted_keys(members: Seq<MemberTree>) -> Seq<Seq<char>> {
    Seq::new(members.len(), |i: int| encoding::quoted(members[i].key))
}

/// At the top level a walk keeps the keys of the members of an object.
proof fn lemma_onward_top(walk: Walk, members: Seq<MemberTree>)
    requires
        is_settled(walk),
        walk.depth == 1,
        walk.key_next,
        forall|i: int|
            0 <= i < members.len() ==> encoding::has_json_numbers((#[trigger] members[i]).value),
    ensures
        onward(walk, encoding::comma_separated(encoding::all_encoded_members(members))) == (Walk {
            key_next: members.len() == 0,
            keys: walk.keys + quoted_keys(members),
            ..walk
        }),
    decreases members.len(),
{
    let parts = encoding::all_encoded_members(members);
    if members.len() == 0 {
        assert(walk.keys + quoted_keys(members) =~= walk.keys);
    } else {
        let front = members.drop_last();
        let last = members.last();
        assert forall|i: int| 0 <= i < front.len() implies encoding::has_json_numbers(
            (#[trigger] front[i]).value,
        ) by {
            assert(front[i] == members[i]);
        }
        lemma_onward_top(walk, front);
        assert(encoding::has_json_numbers(members[members.len() - 1].value));
        assert(parts.drop_last() =~= encoding::all_encoded_members(front));
        let written = encoding::comma_separated(parts.drop_last());
        let before = Walk { keys: walk.keys + quoted_keys(front), ..walk };
        if front.len() > 0 {
            lemma_onward_joined(walk, written, seq![',']);
            lemma_onward_one(onward(walk, written), ',');
            lemma_onward_joined(walk, written + seq![','], parts.last());
        }
        let key = encoding::quoted(last.key);
        let value = encoding::encoded(last.value);
        let named = Walk { key_next: false, keys: before.keys.push(key), ..walk };
        lemma_onward_quoted(before, last.key);
        lemma_onward_one(named, ':');
        lemma_onward_joined(before, key, seq![':']);
        lemma_onward_joined(before, key + seq![':'], value);
        lemma_onward_value(named, last.value);
        assert(before.keys.push(key) =~= walk.keys + quoted_keys(members));
    }
}

/// The keys that a walk over the compact encoding of an object passes are those of its members.
proof fn lemma_walked_encoding(members: Seq<MemberTree>)
    requires
        encoding::has_json_numbers(JsonTree::Object(members)),
    ensures
        walked(encoding::encoded(JsonTree::Object(members))).keys == quoted_keys(members),
{
    let inner = encoding::comma_separated(encoding::all_encoded_members(members));
    let open = step(start(), '{');
    lemma_onward_joined(start(), seq!['{'] + inner, seq!['}']);
    lemma_onward_joined(start(), seq!['{'], inner);
    lemma_onward_one(start(), '{');
    lemma_onward_top(open, members);
    lemma_onward_one(onward(open, inner), '}');
    assert(open.keys + quoted_keys(members) =~= quoted_keys(members));
}

/// Among members with distinct keys each is found under its key.
pub proof fn lemma_lookup_distinct(members: Seq<MemberTree>, i: int)
    requires
        are_distinct(members),
        0 <= i < members.len(),
    ensures
        json::lookup(members, members[i].key) == Some(members[i].value),
    decreases members.len(),
{
    if i < members.len() - 1 {
        assert(members[i].key != members[members.len() - 1].key);
        assert(members.drop_last()[i] == members[i]);
        lemma_lookup_distinct(members.drop_last(), i);
    }
}

/// The keys that an encoded object is written with are those of its members, each between quotes, in
/// order; keys of objects inside it are not among them.
pub proof fn law_written_keys_are_those_of_the_members(members: Seq<MemberTree>, key: Seq<char>)
    requires
        encoding::has_json_numbers(JsonTree::Object(members)),
    ensures
        ({
            let written = walked(encoding::encoded(JsonTree::Object(members))).keys;
            &&& written.len() == members.len()
            &&& forall|i: int|
                0 <= i < members.len() ==> #[trigger] written[i] == encoding::encoded(
                    JsonTree::Text(members[i].key),
                )
        }),
        is_repeated(encoding::encoded(JsonTree::Object(members)), key) <==> exists|i: int, j: int|
            0 <= i < j < members.len() && parsing::parsed(
                encoding::encoded(JsonTree::Text((#[trigger] members[i]).key)),
            ) == Some(JsonTree::Text(key)) && parsing::parsed(
                encoding::encoded(JsonTree::Text((#[trigger] members[j]).key)),
            ) == Some(JsonTree::Text(key)),
{
    lemma_walked_encoding(members);
    let text = encoding::encoded(JsonTree::Object(members));
    let written = walked(text).keys;
    if is_repeated(text, key) {
        let (i, j) = choose|i: int, j: int|
            0 <= i < j < walked(text).keys.len() && spells(#[trigger] walked(text).keys[i], key)
                && spells(#[trigger] walked(text).keys[j], key);
        assert(written[i] == encoding::quoted(members[i].key));
        assert(written[j] == encoding::quoted(members[j].key));
    }
    if exists|i: int, j: int|
        0 <= i < j < members.len() && parsing::parsed(
            encoding::encoded(JsonTree::Text((#[trigger] members[i]).key)),
        ) == Some(JsonTree::Text(key)) && parsing::parsed(
            encoding::encoded(JsonTree::Text((#[trigger] members[j]).key)),
        ) == Some(JsonTree::Text(key)) {
        let (i, j) = choose|i: int, j: int|
            0 <= i < j < members.len() && parsing::parsed(
                encoding::encoded(JsonTree::Text((#[trigger] members[i]).key)),
            ) == Some(JsonTree::Text(key)) && parsing::parsed(
                encoding::encoded(JsonTree::Text((#[trigger] members[j]).key)),
            ) == Some(JsonTree::Text(key));
        assert(written[i] == encoding::quoted(members[i].key));
        assert(written[j] == encoding::quoted(members[j].key));
        assert(spells(written[i], key) && spells(written[j], key));
    }
}

}
