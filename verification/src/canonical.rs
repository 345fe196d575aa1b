//! The canonical form of a JSON value and the comparison of values.

use vstd::prelude::*;

use crate::encoding;
use crate::json::{Json, JsonTree, Member, MemberTree};
use crate::json;
use crate::text;
use crate::text::{same_text, text_precedes};

verus! {

/// Where a member with the key `key` goes: behind the last member whose key it does not precede.
pub open spec fn slot(members: Seq<MemberTree>, key: Seq<char>) -> int
    decreases members.len(),
{
    if members.len() == 0 || !text::precedes(key, members.last().key) {
        members.len() as int
    } else {
        slot(members.drop_last(), key)
    }
}

/// The members of an ordered object after `member` was put in: it takes the place of the member
/// with its key, or else stands where the order wants it.
pub open spec fn with_member(members: Seq<MemberTree>, member: MemberTree) -> Seq<MemberTree> {
    let at = slot(members, member.key);
    if at > 0 && members[at - 1].key == member.key {
        members.update(at - 1, member)
    } else {
        members.insert(at, member)
    }
}

/// The members by increasing key; of two with one key the later.
pub open spec fn ordered(members: Seq<MemberTree>) -> Seq<MemberTree>
    decreases members.len(),
{
    if members.len() == 0 {
        Seq::empty()
    } else {
        with_member(ordered(members.drop_last()), members.last())
    }
}

/// Keys increase strictly.
pub open spec fn strictly_ordered(members: Seq<MemberTree>) -> bool {
    forall|i: int, j: int|
        0 <= i < j < members.len() ==> text::precedes(
            (#[trigger] members[i]).key,
            (#[trigger] members[j]).key,
        )
}

/// The value with the members of every object in it by increasing key.
pub open spec fn canonical(value: JsonTree) -> JsonTree
    decreases value,
{
    match value {
        JsonTree::Array(items) => JsonTree::Array(all_canonical(items)),
        JsonTree::Object(members) => JsonTree::Object(ordered(canonical_values(members))),
        other => other,
    }
}

/// The canonical forms of a sequence of values.
pub open spec fn all_canonical(values: Seq<JsonTree>) -> Seq<JsonTree>
    decreases values,
{
    if values.len() == 0 {
        Seq::empty()
    } else {
        all_canonical(values.drop_last()).push(canonical(values.last()))
    }
}

/// The members with canonical values.
pub open spec fn canonical_values(members: Seq<MemberTree>) -> Seq<MemberTree>
    decreases members,
{
    if members.len() == 0 {
        Seq::empty()
    } else {
        canonical_values(members.drop_last()).push(
            MemberTree { key: members.last().key, value: canonical(members.last().value) },
        )
    }
}

/// Puts `member` into the ordered members of an object.
pub fn put_member(members: &mut Vec<Member>, member: Member)
    ensures
        json::member_trees(final(members)@) == with_member(
            json::member_trees(old(members)@),
            member@,
        ),
{
    let ghost before = json::member_trees(members@);
    let mut at: usize = members.len();
    assert(before.take(at as int) =~= before);
    while at > 0 && text_precedes(member.key.as_str(), members[at - 1].key.as_str())
        invariant
            at <= members@.len(),
            before == json::member_trees(members@),
            slot(before, member.key@) == slot(before.take(at as int), member.key@),
        decreases at,
    {
        assert(before.take(at as int).drop_last() =~= before.take(at - 1));
        at = at - 1;
    }
    assert(slot(before, member.key@) == at) by {
        if at > 0 {
            assert(before.take(at as int).last() == before[at - 1]);
        }
    }
    let ghost held = member@;
    if at > 0 && same_text(members[at - 1].key.as_str(), member.key.as_str()) {
        members.set(at - 1, member);
        assert(json::member_trees(members@) =~= before.update(at - 1, held));
    } else {
        members.insert(at, member);
        assert(json::member_trees(members@) =~= before.insert(at as int, held));
    }
}

/// The value with the members of every object in it by increasing key.
pub fn canonical_json(value: &Json) -> (result: Json)
    ensures
        result@ == canonical(value@),
    decreases value,
{
    broadcast use {json::lemma_array_view, json::lemma_object_view};

    match value {
        Json::Array(items) => {
            let mut results: Vec<Json> = Vec::new();
            let mut i: usize = 0;
            let ghost held = json::trees(items@);
            assert(json::trees(results@) =~= all_canonical(held.take(0)));
            #[verifier::loop_isolation(false)]
            while i < items.len()
                invariant
                    i <= items@.len(),
                    json::trees(results@) == all_canonical(held.take(i as int)),
                decreases items@.len() - i,
            {
                results.push(canonical_json(&items[i]));
                i = i + 1;
                assert(held.take(i as int).drop_last() =~= held.take(i - 1));
                assert(json::trees(results@) =~= all_canonical(held.take(i as int)));
            }
            assert(held.take(i as int) =~= held);
            Json::Array(results)
        },
        Json::Object(members) => {
            let mut results: Vec<Member> = Vec::new();
            let ghost held = json::member_trees(members@);
            let mut i: usize = 0;
            assert(json::member_trees(results@) =~= ordered(canonical_values(held.take(0))));
            #[verifier::loop_isolation(false)]
            while i < members.len()
                invariant
                    i <= members@.len(),
                    json::member_trees(results@) == ordered(canonical_values(held.take(i as int))),
                decreases members@.len() - i,
            {
                let member = Member {
                    key: members[i].key.clone(),
                    value: canonical_json(&members[i].value),
                };
                put_member(&mut results, member);
                i = i + 1;
                assert(held.take(i as int).drop_last() =~= held.take(i - 1));
                assert(canonical_values(held.take(i as int)).drop_last() =~= canonical_values(
                    held.take(i - 1),
                ));
            }
            assert(held.take(i as int) =~= held);
            Json::Object(results)
        },
        other => other.clone(),
    }
}

/// A floating-point zero.
pub open spec fn is_zero(number: Seq<char>) -> bool {
    number == "0.0"@ || number == "-0.0"@
}

/// Whether two canonical values are equal: numbers by their text, the two floating-point zeros
/// as one.
pub open spec fn same(a: JsonTree, b: JsonTree) -> bool
    decreases a,
{
    match (a, b) {
        (JsonTree::Null, JsonTree::Null) => true,
        (JsonTree::Bool(x), JsonTree::Bool(y)) => x == y,
        (JsonTree::Number(x, _), JsonTree::Number(y, _)) => x == y || is_zero(x) && is_zero(y),
        (JsonTree::Text(x), JsonTree::Text(y)) => x == y,
        (JsonTree::Array(x), JsonTree::Array(y)) => {
            &&& x.len() == y.len()
            &&& forall|i: int| 0 <= i < x.len() ==> same(#[trigger] x[i], y[i])
        },
        (JsonTree::Object(x), JsonTree::Object(y)) => {
            &&& x.len() == y.len()
            &&& forall|i: int|
                0 <= i < x.len() ==> (#[trigger] x[i]).key == y[i].key && same(x[i].value, y[i].value)
        },
        _ => false,
    }
}

/// Whether two values are equal, whatever the order of the members of their objects.
pub open spec fn equal(a: JsonTree, b: JsonTree) -> bool {
    same(canonical(a), canonical(b))
}

/// Whether two optional values are both absent, or both there and equal.
pub open spec fn equal_options(a: Option<JsonTree>, b: Option<JsonTree>) -> bool {
    match (a, b) {
        (Some(x), Some(y)) => equal(x, y),
        (None, None) => true,
        _ => false,
    }
}

/// Whether two canonical values are equal.
pub fn same_json(a: &Json, b: &Json) -> (result: bool)
    ensures
        result == same(a@, b@),
    decreases a,
{
    broadcast use {json::lemma_array_view, json::lemma_object_view};

    match (a, b) {
        (Json::Null, Json::Null) => true,
        (Json::Bool(x), Json::Bool(y)) => *x == *y,
        (Json::Number { text: x, unsigned: _ }, Json::Number { text: y, unsigned: _ }) => {
            same_text(x.as_str(), y.as_str()) || (same_text(x.as_str(), "0.0") || same_text(
                x.as_str(),
                "-0.0",
            )) && (same_text(y.as_str(), "0.0") || same_text(y.as_str(), "-0.0"))
        },
        (Json::Text(x), Json::Text(y)) => same_text(x.as_str(), y.as_str()),
        (Json::Array(x), Json::Array(y)) => {
            if x.len() != y.len() {
                return false;
            }
            let mut i: usize = 0;
            #[verifier::loop_isolation(false)]
            while i < x.len()
                invariant
                    i <= x@.len() == y@.len(),
                    forall|j: int|
                        0 <= j < i ==> same(#[trigger] json::trees(x@)[j], json::trees(y@)[j]),
                decreases x@.len() - i,
            {
                if !same_json(&x[i], &y[i]) {
                    assert(!same(json::trees(x@)[i as int], json::trees(y@)[i as int]));
                    return false;
                }
                i = i + 1;
            }
            true
        },
        (Json::Object(x), Json::Object(y)) => {
            if x.len() != y.len() {
                return false;
            }
            let ghost xs = json::member_trees(x@);
            let ghost ys = json::member_trees(y@);
            let mut i: usize = 0;
            #[verifier::loop_isolation(false)]
            while i < x.len()
                invariant
                    i <= x@.len() == y@.len(),
                    forall|j: int|
                        0 <= j < i ==> (#[trigger] xs[j]).key == ys[j].key && same(
                            xs[j].value,
                            ys[j].value,
                        ),
                decreases x@.len() - i,
            {
                if !same_text(x[i].key.as_str(), y[i].key.as_str()) || !same_json(
                    &x[i].value,
                    &y[i].value,
                ) {
                    assert(xs[i as int].key != ys[i as int].key || !same(
                        xs[i as int].value,
                        ys[i as int].value,
                    ));
                    return false;
                }
                i = i + 1;
            }
            true
        },
        _ => false,
    }
}

/// Whether two values are equal, whatever the order of the members of their objects.
pub fn equal_json(a: &Json, b: &Json) -> (result: bool)
    ensures
        result == equal(a@, b@),
{
    let x = canonical_json(a);
    let y = canonical_json(b);
    same_json(&x, &y)
}

/// A member goes behind those that it does not precede and before those that it precedes.
proof fn lemma_slot(members: Seq<MemberTree>, key: Seq<char>)
    requires
        strictly_ordered(members),
    ensures
        0 <= slot(members, key) <= members.len(),
        forall|i: int|
            0 <= i < slot(members, key) ==> !text::precedes(key, (#[trigger] members[i]).key),
        forall|i: int|
            slot(members, key) <= i < members.len() ==> text::precedes(
                key,
                (#[trigger] members[i]).key,
            ),
    decreases members.len(),
{
    if members.len() > 0 {
        let last = members.last();
        if text::precedes(key, last.key) {
            let front = members.drop_last();
            lemma_slot(front, key);
            assert forall|i: int| 0 <= i < slot(members, key) implies !text::precedes(
                key,
                (#[trigger] members[i]).key,
            ) by {
                assert(front[i] == members[i]);
            }
            assert forall|i: int| slot(members, key) <= i < members.len() implies text::precedes(
                key,
                (#[trigger] members[i]).key,
            ) by {
                if i < front.len() {
                    assert(front[i] == members[i]);
                }
            }
        } else {
            assert forall|i: int| 0 <= i < members.len() implies !text::precedes(
                key,
                (#[trigger] members[i]).key,
            ) by {
                if i < members.len() - 1 && text::precedes(key, members[i].key) {
                    assert(text::precedes(members[i].key, members[members.len() - 1].key));
                    text::lemma_precedes_transitive(key, members[i].key, last.key);
                }
            }
        }
    }
}

/// Putting a member into ordered members keeps them ordered.
pub proof fn lemma_with_member_ordered(members: Seq<MemberTree>, member: MemberTree)
    requires
        strictly_ordered(members),
    ensures
        strictly_ordered(with_member(members, member)),
{
    let at = slot(members, member.key);
    let result = with_member(members, member);
    lemma_slot(members, member.key);
    if at > 0 && members[at - 1].key == member.key {
        assert forall|i: int, j: int| 0 <= i < j < result.len() implies text::precedes(
            (#[trigger] result[i]).key,
            (#[trigger] result[j]).key,
        ) by {
            assert(result[i].key == members[i].key && result[j].key == members[j].key);
        }
    } else {
        assert forall|i: int, j: int| 0 <= i < j < result.len() implies text::precedes(
            (#[trigger] result[i]).key,
            (#[trigger] result[j]).key,
        ) by {
            if j == at {
                assert(result[i] == members[i]);
                text::lemma_precedes_total(member.key, members[i].key);
                if members[i].key == member.key && i < at - 1 {
                    assert(text::precedes(members[i].key, members[at - 1].key));
                }
            } else if i == at {
                assert(result[j] == members[j - 1]);
            } else {
                assert(result[i] == members[if i < at { i } else { i - 1 }]);
                assert(result[j] == members[if j < at { j } else { j - 1 }]);
            }
        }
    }
}

/// What is looked up stands somewhere.
proof fn lemma_lookup_finds(members: Seq<MemberTree>, key: Seq<char>)
    ensures
        json::lookup(members, key) matches Some(value) ==> exists|i: int|
            0 <= i < members.len() && (#[trigger] members[i]).key == key && members[i].value
                == value,
        json::lookup(members, key) is None ==> forall|i: int|
            0 <= i < members.len() ==> (#[trigger] members[i]).key != key,
    decreases members.len(),
{
    if members.len() > 0 {
        let front = members.drop_last();
        lemma_lookup_finds(front, key);
        if members.last().key != key {
            if json::lookup(front, key) is Some {
                let i = choose|i: int|
                    0 <= i < front.len() && (#[trigger] front[i]).key == key && front[i].value
                        == json::lookup(front, key)->0;
                assert(members[i].key == key && members[i].value == json::lookup(members, key)->0);
            } else {
                assert forall|i: int| 0 <= i < members.len() implies (#[trigger] members[i]).key
                    != key by {
                    if i < front.len() {
                        assert(front[i] == members[i]);
                    }
                }
            }
        } else {
            assert(members[members.len() - 1].key == key);
        }
    }
}

/// Among ordered members each is found under its key.
proof fn lemma_lookup_at(members: Seq<MemberTree>, i: int)
    requires
        strictly_ordered(members),
        0 <= i < members.len(),
    ensures
        json::lookup(members, members[i].key) == Some(members[i].value),
    decreases members.len(),
{
    if i < members.len() - 1 {
        assert(text::precedes(members[i].key, members[members.len() - 1].key));
        text::lemma_precedes_irreflexive(members[i].key);
        assert(members.drop_last()[i] == members[i]);
        lemma_lookup_at(members.drop_last(), i);
    }
}

/// Putting a member in changes what is found under its key and nothing else.
pub proof fn lemma_lookup_with_member(members: Seq<MemberTree>, member: MemberTree, key: Seq<char>)
    requires
        strictly_ordered(members),
    ensures
        json::lookup(with_member(members, member), key) == if key == member.key {
            Some(member.value)
        } else {
            json::lookup(members, key)
        },
{
    let at = slot(members, member.key);
    let result = with_member(members, member);
    lemma_slot(members, member.key);
    lemma_with_member_ordered(members, member);
    lemma_lookup_finds(members, key);
    lemma_lookup_finds(result, key);
    let replaced = at > 0 && members[at - 1].key == member.key;
    if key == member.key {
        let place = if replaced {
            at - 1
        } else {
            at
        };
        assert(result[place] == member);
        lemma_lookup_at(result, place);
    } else if json::lookup(members, key) is Some {
        let i = choose|i: int|
            0 <= i < members.len() && (#[trigger] members[i]).key == key && members[i].value
                == json::lookup(members, key)->0;
        let place = if replaced || i < at {
            i
        } else {
            i + 1
        };
        assert(result[place] == members[i]);
        lemma_lookup_at(result, place);
    } else if json::lookup(result, key) is Some {
        let i = choose|i: int|
            0 <= i < result.len() && (#[trigger] result[i]).key == key && result[i].value
                == json::lookup(result, key)->0;
        if replaced {
            assert(i != at - 1 ==> members[i] == result[i]);
        } else {
            assert(i < at ==> members[i] == result[i]);
            assert(i > at ==> members[i - 1] == result[i]);
        }
    }
}

/// Ordering the members of an object gives each key once, in increasing order, and changes nothing
/// that is found in it.
pub proof fn law_ordering_keeps_members(members: Seq<MemberTree>)
    ensures
        strictly_ordered(ordered(members)),
        forall|key: Seq<char>| #[trigger]
            json::lookup(ordered(members), key) == json::lookup(members, key),
    decreases members.len(),
{
    if members.len() > 0 {
        let front = members.drop_last();
        law_ordering_keeps_members(front);
        lemma_with_member_ordered(ordered(front), members.last());
        assert forall|key: Seq<char>| #[trigger]
            json::lookup(ordered(members), key) == json::lookup(members, key) by {
            lemma_lookup_with_member(ordered(front), members.last(), key);
            assert(json::lookup(ordered(front), key) == json::lookup(front, key));
        }
    }
}

/// Ordered members in which the same is found are the same.
pub proof fn lemma_ordered_members_agree(a: Seq<MemberTree>, b: Seq<MemberTree>)
    requires
        strictly_ordered(a),
        strictly_ordered(b),
        forall|key: Seq<char>| #[trigger] json::lookup(a, key) == json::lookup(b, key),
    ensures
        a == b,
    decreases a.len(),
{
    if a.len() == 0 || b.len() == 0 {
        if a.len() > 0 {
            lemma_lookup_at(a, a.len() - 1);
            assert(json::lookup(b, a.last().key) is None);
        }
        if b.len() > 0 {
            lemma_lookup_at(b, b.len() - 1);
            assert(json::lookup(a, b.last().key) is None);
        }
        assert(a =~= b);
    } else {
        let (x, y) = (a.last(), b.last());
        let (p, q) = (a.drop_last(), b.drop_last());
        lemma_lookup_at(a, a.len() - 1);
        lemma_lookup_at(b, b.len() - 1);
        lemma_lookup_finds(a, y.key);
        lemma_lookup_finds(b, x.key);
        assert(json::lookup(a, y.key) == json::lookup(b, y.key));
        assert(json::lookup(a, x.key) == json::lookup(b, x.key));
        if x.key != y.key {
            let i = choose|i: int|
                0 <= i < a.len() && (#[trigger] a[i]).key == y.key && a[i].value == json::lookup(
                    a,
                    y.key,
                )->0;
            let j = choose|j: int|
                0 <= j < b.len() && (#[trigger] b[j]).key == x.key && b[j].value == json::lookup(
                    b,
                    x.key,
                )->0;
            assert(text::precedes(a[i].key, a[a.len() - 1].key));
            assert(text::precedes(b[j].key, b[b.len() - 1].key));
            text::lemma_precedes_transitive(x.key, y.key, x.key);
            text::lemma_precedes_irreflexive(x.key);
        }
        assert forall|key: Seq<char>| #[trigger] json::lookup(p, key) == json::lookup(q, key) by {
            assert(json::lookup(a, key) == json::lookup(b, key));
            if key == x.key {
                lemma_lookup_finds(p, key);
                lemma_lookup_finds(q, key);
                text::lemma_precedes_irreflexive(key);
                assert forall|i: int| 0 <= i < p.len() implies (#[trigger] p[i]).key != key by {
                    assert(text::precedes(a[i].key, a[a.len() - 1].key));
                }
                assert forall|i: int| 0 <= i < q.len() implies (#[trigger] q[i]).key != key by {
                    assert(text::precedes(b[i].key, b[b.len() - 1].key));
                }
            }
        }
        lemma_ordered_members_agree(p, q);
        assert(a =~= p.push(x));
        assert(b =~= q.push(y));
    }
}

/// In members with canonical values the canonical form of the same is found.
pub proof fn lemma_lookup_canonical_values(members: Seq<MemberTree>, key: Seq<char>)
    ensures
        json::lookup(canonical_values(members), key) == match json::lookup(members, key) {
            Some(value) => Some(canonical(value)),
            None => None,
        },
    decreases members.len(),
{
    if members.len() > 0 {
        lemma_lookup_canonical_values(members.drop_last(), key);
        assert(canonical_values(members).drop_last() =~= canonical_values(members.drop_last()));
    }
}

/// What is found in the canonical form of an object is the canonical form of what was in it.
pub proof fn lemma_get_canonical(members: Seq<MemberTree>, key: Seq<char>)
    ensures
        canonical(JsonTree::Object(members)).get(key) == match json::lookup(members, key) {
            Some(value) => Some(canonical(value)),
            None => None,
        },
{
    law_ordering_keeps_members(canonical_values(members));
    lemma_lookup_canonical_values(members, key);
    assert(json::lookup(ordered(canonical_values(members)), key) == json::lookup(
        canonical_values(members),
        key,
    ));
}

/// There is one canonical form for each value, in order.
pub proof fn lemma_all_canonical(values: Seq<JsonTree>)
    ensures
        all_canonical(values).len() == values.len(),
        forall|i: int|
            0 <= i < values.len() ==> #[trigger] all_canonical(values)[i] == canonical(values[i]),
    decreases values.len(),
{
    if values.len() > 0 {
        lemma_all_canonical(values.drop_last());
    }
}

/// There is one member with a canonical value for each member, in order.
pub proof fn lemma_canonical_values(members: Seq<MemberTree>)
    ensures
        canonical_values(members).len() == members.len(),
        forall|i: int|
            0 <= i < members.len() ==> #[trigger] canonical_values(members)[i] == (MemberTree {
                key: members[i].key,
                value: canonical(members[i].value),
            }),
    decreases members.len(),
{
    if members.len() > 0 {
        lemma_canonical_values(members.drop_last());
    }
}

/// Ordering the members of an object adds none.
pub proof fn lemma_ordering_adds_nothing(members: Seq<MemberTree>)
    ensures
        forall|i: int|
            0 <= i < ordered(members).len() ==> members.contains(#[trigger] ordered(members)[i]),
    decreases members.len(),
{
    if members.len() > 0 {
        let front = members.drop_last();
        let before = ordered(front);
        let result = ordered(members);
        law_ordering_keeps_members(front);
        lemma_slot(before, members.last().key);
        lemma_ordering_adds_nothing(front);
        assert(members.contains(members[members.len() - 1]));
        assert forall|i: int| 0 <= i < result.len() implies members.contains(
            #[trigger] result[i],
        ) by {
            let at = slot(before, members.last().key);
            let replaced = at > 0 && before[at - 1].key == members.last().key;
            if result[i] != members.last() {
                let j = if replaced || i < at {
                    i
                } else {
                    i - 1
                };
                assert(result[i] == before[j]);
                assert(front.contains(before[j]));
                let k = choose|k: int| 0 <= k < front.len() && front[k] == before[j];
                assert(members[k] == result[i]);
            }
        }
    }
}

/// The numbers of a canonical form are those of the value.
pub proof fn lemma_canonical_numbers(value: JsonTree)
    requires
        encoding::has_json_numbers(value),
    ensures
        encoding::has_json_numbers(canonical(value)),
    decreases value,
{
    match value {
        JsonTree::Array(items) => {
            let forms = all_canonical(items);
            lemma_all_canonical(items);
            assert forall|i: int| 0 <= i < forms.len() implies encoding::has_json_numbers(
                #[trigger] forms[i],
            ) by {
                lemma_canonical_numbers(items[i]);
            }
        },
        JsonTree::Object(members) => {
            let values = canonical_values(members);
            let forms = ordered(values);
            lemma_canonical_values(members);
            lemma_ordering_adds_nothing(values);
            assert forall|i: int| 0 <= i < forms.len() implies encoding::has_json_numbers(
                (#[trigger] forms[i]).value,
            ) by {
                assert(values.contains(forms[i]));
                let j = choose|j: int| 0 <= j < values.len() && values[j] == forms[i];
                assert(values[j].value == canonical(members[j].value));
                assert(decreases_to!(value => value->Object_0));
                assert(decreases_to!(members => members[j]));
                assert(decreases_to!(members[j] => members[j].value));
                lemma_canonical_numbers(members[j].value);
            }
        },
        _ => {},
    }
}

/// A canonical form is its own canonical form.
pub proof fn law_canonical_form_is_its_own(value: JsonTree)
    ensures
        canonical(canonical(value)) == canonical(value),
    decreases value,
{
    match value {
        JsonTree::Array(items) => {
            let forms = all_canonical(items);
            lemma_all_canonical(items);
            lemma_all_canonical(forms);
            assert forall|i: int| 0 <= i < items.len() implies #[trigger] all_canonical(forms)[i]
                == forms[i] by {
                law_canonical_form_is_its_own(items[i]);
            }
            assert(all_canonical(forms) =~= forms);
        },
        JsonTree::Object(members) => {
            let values = canonical_values(members);
            let forms = ordered(values);
            law_ordering_keeps_members(values);
            law_ordering_keeps_members(canonical_values(forms));
            assert forall|key: Seq<char>| #[trigger]
                json::lookup(ordered(canonical_values(forms)), key) == json::lookup(forms, key) by {
                assert(json::lookup(forms, key) == json::lookup(values, key));
                lemma_lookup_canonical_values(forms, key);
                lemma_lookup_canonical_values(members, key);
                lemma_lookup_finds(members, key);
                if json::lookup(members, key) is Some {
                    let i = choose|i: int|
                        0 <= i < members.len() && (#[trigger] members[i]).key == key
                            && members[i].value == json::lookup(members, key)->0;
                    assert(decreases_to!(value => value->Object_0));
                    assert(decreases_to!(members => members[i]));
                    assert(decreases_to!(members[i] => members[i].value));
                    law_canonical_form_is_its_own(members[i].value);
                }
                assert(json::lookup(ordered(canonical_values(forms)), key) == json::lookup(
                    canonical_values(forms),
                    key,
                ));
            }
            lemma_ordered_members_agree(ordered(canonical_values(forms)), forms);
        },
        _ => {},
    }
}

/// The canonical form of an object depends on what is found in it, not on how its members are
/// ordered or how often a key was written.
pub proof fn law_member_order_is_immaterial(a: Seq<MemberTree>, b: Seq<MemberTree>)
    requires
        forall|key: Seq<char>| #[trigger] json::lookup(a, key) == json::lookup(b, key),
    ensures
        canonical(JsonTree::Object(a)) == canonical(JsonTree::Object(b)),
{
    let (x, y) = (canonical_values(a), canonical_values(b));
    law_ordering_keeps_members(x);
    law_ordering_keeps_members(y);
    assert forall|key: Seq<char>| #[trigger]
        json::lookup(ordered(x), key) == json::lookup(ordered(y), key) by {
        assert(json::lookup(a, key) == json::lookup(b, key));
        lemma_lookup_canonical_values(a, key);
        lemma_lookup_canonical_values(b, key);
        assert(json::lookup(ordered(x), key) == json::lookup(x, key));
        assert(json::lookup(ordered(y), key) == json::lookup(y, key));
    }
    lemma_ordered_members_agree(ordered(x), ordered(y));
}

/// Every value is the same as itself.
pub proof fn lemma_same_reflexive(value: JsonTree)
    ensures
        same(value, value),
    decreases value,
{
    match value {
        JsonTree::Array(items) => {
            assert forall|i: int| 0 <= i < items.len() implies same(
                #[trigger] items[i],
                items[i],
            ) by {
                lemma_same_reflexive(items[i]);
            }
        },
        JsonTree::Object(members) => {
            assert forall|i: int| 0 <= i < members.len() implies (#[trigger] members[i]).key
                == members[i].key && same(members[i].value, members[i].value) by {
                lemma_same_reflexive(members[i].value);
            }
        },
        _ => {},
    }
}

/// A canonical form holds what the value holds: the same texts, numbers and words, the canonical
/// forms of the same items in the same order, and under each key the canonical form of what is found
/// there, with the keys in increasing order.
pub proof fn law_canonical_form_keeps_the_value(value: JsonTree)
    ensures
        match value {
            JsonTree::Array(items) => {
                &&& canonical(value) matches JsonTree::Array(forms)
                &&& forms.len() == items.len()
                &&& forall|i: int|
                    0 <= i < items.len() ==> #[trigger] forms[i] == canonical(items[i])
            },
            JsonTree::Object(members) => {
                &&& canonical(value) is Object
                &&& strictly_ordered(canonical(value)->Object_0)
                &&& forall|key: Seq<char>|
                    match value.get(key) {
                        Some(found) => #[trigger] canonical(value).get(key) == Some(
                            canonical(found),
                        ),
                        None => canonical(value).get(key) is None,
                    }
            },
            other => canonical(value) == other,
        },
{
    match value {
        JsonTree::Array(items) => {
            lemma_all_canonical(items);
        },
        JsonTree::Object(members) => {
            law_ordering_keeps_members(canonical_values(members));
            assert forall|key: Seq<char>|
                match value.get(key) {
                    Some(found) => #[trigger] canonical(value).get(key) == Some(canonical(found)),
                    None => canonical(value).get(key) is None,
                } by {
                lemma_get_canonical(members, key);
            }
        },
        _ => {},
    }
}

/// What is found in members that are the same is the same.
proof fn lemma_lookup_same(a: Seq<MemberTree>, b: Seq<MemberTree>, key: Seq<char>)
    requires
        a.len() == b.len(),
        forall|i: int|
            0 <= i < a.len() ==> (#[trigger] a[i]).key == b[i].key && same(a[i].value, b[i].value),
    ensures
        match (json::lookup(a, key), json::lookup(b, key)) {
            (Some(x), Some(y)) => same(x, y),
            (None, None) => true,
            _ => false,
        },
    decreases a.len(),
{
    if a.len() > 0 {
        let last = a.len() - 1;
        assert(a[last].key == b[last].key && same(a[last].value, b[last].value));
        let (p, q) = (a.drop_last(), b.drop_last());
        assert forall|i: int| 0 <= i < p.len() implies (#[trigger] p[i]).key == q[i].key && same(
            p[i].value,
            q[i].value,
        ) by {
            assert(p[i] == a[i] && q[i] == b[i]);
        }
        lemma_lookup_same(p, q, key);
    }
}

/// Values that are equal are of one sort and hold the same: the same text, the same word, a number
/// written alike or two floating-point zeros, as many items that are equal one by one, and under
/// each key values that are equal, or none in both.
pub proof fn law_equal_values_hold_the_same(a: JsonTree, b: JsonTree)
    requires
        equal(a, b),
    ensures
        match a {
            JsonTree::Null => b is Null,
            JsonTree::Bool(x) => b == JsonTree::Bool(x),
            JsonTree::Text(x) => b == JsonTree::Text(x),
            JsonTree::Number(x, _) => b matches JsonTree::Number(y, _) && (x == y || ((x == "0.0"@
                || x == "-0.0"@) && (y == "0.0"@ || y == "-0.0"@))),
            JsonTree::Array(x) => b matches JsonTree::Array(y) && x.len() == y.len() && forall|
                i: int,
            |
                0 <= i < x.len() ==> equal(#[trigger] x[i], y[i]),
            JsonTree::Object(_) => b is Object && forall|key: Seq<char>|
                match (#[trigger] a.get(key), b.get(key)) {
                    (Some(x), Some(y)) => equal(x, y),
                    (None, None) => true,
                    _ => false,
                },
        },
{
    match (a, b) {
        (JsonTree::Array(x), JsonTree::Array(y)) => {
            lemma_all_canonical(x);
            lemma_all_canonical(y);
            assert forall|i: int| 0 <= i < x.len() implies equal(#[trigger] x[i], y[i]) by {
                assert(same(all_canonical(x)[i], all_canonical(y)[i]));
            }
        },
        (JsonTree::Object(x), JsonTree::Object(y)) => {
            assert forall|key: Seq<char>|
                match (#[trigger] a.get(key), b.get(key)) {
                    (Some(x), Some(y)) => equal(x, y),
                    (None, None) => true,
                    _ => false,
                } by {
                lemma_get_canonical(x, key);
                lemma_get_canonical(y, key);
                lemma_lookup_same(
                    canonical(a)->Object_0,
                    canonical(b)->Object_0,
                    key,
                );
            }
        },
        _ => {},
    }
}

}
