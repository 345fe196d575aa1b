//! JSON values. A [`Json`] value keeps the members of an object in a list.

use vstd::prelude::*;
use vstd::string::*;

use crate::text::same_text;

verus! {

/// A JSON value.
#[derive(Debug)]
pub enum Json {
    Null,
    Bool(bool),
    /// A number: its text, and its value where it is a non-negative integer that fits.
    Number { text: String, unsigned: Option<u64> },
    Text(String),
    Array(Vec<Json>),
    Object(Vec<Member>),
}

/// A member of an object.
#[derive(Debug)]
pub struct Member {
    pub key: String,
    pub value: Json,
}

/// What a [`Json`] value holds.
pub enum JsonTree {
    Null,
    Bool(bool),
    Number(Seq<char>, Option<u64>),
    Text(Seq<char>),
    Array(Seq<JsonTree>),
    Object(Seq<MemberTree>),
}

/// What a [`Member`] holds.
pub struct MemberTree {
    pub key: Seq<char>,
    pub value: JsonTree,
}

impl Json {
    /// What the value holds.
    pub open spec fn tree(self) -> JsonTree
        decreases self,
    {
        match self {
            Json::Null => JsonTree::Null,
            Json::Bool(b) => JsonTree::Bool(b),
            Json::Number { text, unsigned } => JsonTree::Number(text@, unsigned),
            Json::Text(text) => JsonTree::Text(text@),
            Json::Array(items) => JsonTree::Array(
                Seq::new(
                    items@.len(),
                    |i: int|
                        if 0 <= i < items@.len() {
                            items@[i].tree()
                        } else {
                            JsonTree::Null
                        },
                ),
            ),
            Json::Object(members) => JsonTree::Object(
                Seq::new(
                    members@.len(),
                    |i: int|
                        if 0 <= i < members@.len() {
                            MemberTree { key: members@[i].key@, value: members@[i].value.tree() }
                        } else {
                            MemberTree { key: Seq::empty(), value: JsonTree::Null }
                        },
                ),
            ),
        }
    }
}

impl View for Json {
    type V = JsonTree;

    open spec fn view(&self) -> JsonTree {
        self.tree()
    }
}

impl View for Member {
    type V = MemberTree;

    open spec fn view(&self) -> MemberTree {
        MemberTree { key: self.key@, value: self.value@ }
    }
}

/// What each value of a sequence holds.
pub open spec fn trees(values: Seq<Json>) -> Seq<JsonTree> {
    Seq::new(values.len(), |i: int| values[i]@)
}

/// What each member of a sequence holds.
pub open spec fn member_trees(members: Seq<Member>) -> Seq<MemberTree> {
    Seq::new(members.len(), |i: int| members[i]@)
}

/// An array holds what its items hold.
pub broadcast proof fn lemma_array_view(items: Vec<Json>)
    ensures
        #[trigger] Json::Array(items).tree() == JsonTree::Array(trees(items@)),
{
    assert(Json::Array(items).tree()->Array_0 =~= trees(items@));
}

/// An object holds what its members hold.
pub broadcast proof fn lemma_object_view(members: Vec<Member>)
    ensures
        #[trigger] Json::Object(members).tree() == JsonTree::Object(member_trees(members@)),
{
    assert(Json::Object(members).tree()->Object_0 =~= member_trees(members@));
}

/// One more value holds one more tree.
pub broadcast proof fn lemma_trees_push(values: Seq<Json>, value: Json)
    ensures
        #[trigger] trees(values.push(value)) == trees(values).push(value@),
{
    assert(trees(values.push(value)) =~= trees(values).push(value@));
}

/// What an optional value holds.
pub open spec fn optional_tree(value: Option<&Json>) -> Option<JsonTree> {
    match value {
        Some(value) => Some(value@),
        None => None,
    }
}

/// The value of the last member with the key `key`.
pub open spec fn lookup(members: Seq<MemberTree>, key: Seq<char>) -> Option<JsonTree>
    decreases members.len(),
{
    if members.len() == 0 {
        None
    } else if members.last().key == key {
        Some(members.last().value)
    } else {
        lookup(members.drop_last(), key)
    }
}

impl JsonTree {
    /// The member `key` of an object.
    pub open spec fn get(self, key: Seq<char>) -> Option<JsonTree> {
        match self {
            JsonTree::Object(members) => lookup(members, key),
            _ => None,
        }
    }

    /// The characters of a text value.
    pub open spec fn as_text(self) -> Option<Seq<char>> {
        match self {
            JsonTree::Text(text) => Some(text),
            _ => None,
        }
    }

    /// The value of a number that is a non-negative integer.
    pub open spec fn as_unsigned(self) -> Option<u64> {
        match self {
            JsonTree::Number(_, unsigned) => unsigned,
            _ => None,
        }
    }

    /// The characters of the member `key`, where it is a text value.
    pub open spec fn text_at(self, key: Seq<char>) -> Option<Seq<char>> {
        match self.get(key) {
            Some(value) => value.as_text(),
            None => None,
        }
    }

    /// The member `inner` of the member `outer`.
    pub open spec fn get_in(self, outer: Seq<char>, inner: Seq<char>) -> Option<JsonTree> {
        match self.get(outer) {
            Some(value) => value.get(inner),
            None => None,
        }
    }
}

impl Json {
    /// The member `key` of an object.
    pub fn get(&self, key: &str) -> (value: Option<&Json>)
        ensures
            optional_tree(value) == self@.get(key@),
    {
        match self {
            Json::Object(members) => {
                let mut i: usize = members.len();
                proof {
                    assert(member_trees(members@).take(i as int) =~= member_trees(members@));
                    lemma_object_view(*members);
                }
                while i > 0
                    invariant
                        i <= members@.len(),
                        self@ == JsonTree::Object(member_trees(members@)),
                        lookup(member_trees(members@), key@) == lookup(
                            member_trees(members@).take(i as int),
                            key@,
                        ),
                    decreases i,
                {
                    let ghost front = member_trees(members@).take(i as int);
                    i = i - 1;
                    assert(front.drop_last() =~= member_trees(members@).take(i as int));
                    if same_text(&members[i].key, key) {
                        return Some(&members[i].value);
                    }
                }
                None
            },
            _ => None,
        }
    }

    /// The characters of a text value.
    pub fn as_text(&self) -> (text: Option<&str>)
        ensures
            text matches Some(t) ==> self@.as_text() == Some(t@),
            text is None ==> self@.as_text() is None,
    {
        match self {
            Json::Text(text) => Some(text.as_str()),
            _ => None,
        }
    }

    /// The characters of the member `key`, where it is a text value.
    pub fn text_at(&self, key: &str) -> (text: Option<&str>)
        ensures
            text matches Some(t) ==> self@.text_at(key@) == Some(t@),
            text is None ==> self@.text_at(key@) is None,
    {
        match self.get(key) {
            Some(value) => value.as_text(),
            None => None,
        }
    }

    /// Whether the member `key` is the text `expected`.
    pub fn text_at_is(&self, key: &str, expected: &str) -> (equal: bool)
        ensures
            equal == (self@.text_at(key@) == Some(expected@)),
    {
        match self.text_at(key) {
            Some(text) => same_text(text, expected),
            None => false,
        }
    }
}

impl Clone for Json {
    fn clone(&self) -> (copy: Self)
        ensures
            copy@ == self@,
        decreases self,
    {
        broadcast use {lemma_array_view, lemma_object_view};

        match self {
            Json::Null => Json::Null,
            Json::Bool(b) => Json::Bool(*b),
            Json::Number { text, unsigned } => Json::Number {
                text: text.clone(),
                unsigned: *unsigned,
            },
            Json::Text(text) => Json::Text(text.clone()),
            Json::Array(items) => {
                let mut copies: Vec<Json> = Vec::new();
                let mut i: usize = 0;
                #[verifier::loop_isolation(false)]
                while i < items.len()
                    invariant
                        i <= items@.len(),
                        trees(copies@) == trees(items@).take(i as int),
                    decreases items@.len() - i,
                {
                    copies.push((&items[i]).clone());
                    i = i + 1;
                }
                assert(trees(copies@) =~= trees(items@));
                Json::Array(copies)
            },
            Json::Object(members) => {
                let mut copies: Vec<Member> = Vec::new();
                let mut i: usize = 0;
                #[verifier::loop_isolation(false)]
                while i < members.len()
                    invariant
                        i <= members@.len(),
                        member_trees(copies@) == member_trees(members@).take(i as int),
                    decreases members@.len() - i,
                {
                    copies.push(
                        Member { key: members[i].key.clone(), value: (&members[i].value).clone() },
                    );
                    i = i + 1;
                }
                assert(member_trees(copies@) =~= member_trees(members@));
                Json::Object(copies)
            },
        }
    }
}

impl Clone for Member {
    fn clone(&self) -> (copy: Self)
        ensures
            copy@ == self@,
    {
        Member { key: self.key.clone(), value: self.value.clone() }
    }
}

/// The member `key` with the value `value`.
pub open spec fn member(key: Seq<char>, value: JsonTree) -> MemberTree {
    MemberTree { key, value }
}

/// The member `key` where there is a value, and none where there is not.
pub open spec fn members_of(key: Seq<char>, value: Option<JsonTree>) -> Seq<MemberTree> {
    match value {
        Some(value) => seq![member(key, value)],
        None => Seq::empty(),
    }
}

/// What is found once a member was added, where there is a value.
pub proof fn lemma_lookup_added(
    front: Seq<MemberTree>,
    key: Seq<char>,
    value: Option<JsonTree>,
    wanted: Seq<char>,
)
    ensures
        lookup(front + members_of(key, value), wanted) == if wanted == key && value is Some {
            value
        } else {
            lookup(front, wanted)
        },
{
    let members = front + members_of(key, value);
    if value is Some {
        assert(members.drop_last() =~= front);
        assert(members.last() == member(key, value->0));
    } else {
        assert(members =~= front);
    }
}

/// What texts hold as JSON values.
pub open spec fn text_trees(strings: Seq<String>) -> Seq<JsonTree> {
    Seq::new(strings.len(), |i: int| JsonTree::Text(strings[i]@))
}

/// Appends the member `key` with the value `value`.
pub fn push_member(members: &mut Vec<Member>, key: &str, value: Json)
    ensures
        member_trees(final(members)@) == member_trees(old(members)@).push(member(key@, value@)),
{
    let ghost before = member_trees(members@);
    let ghost held = value@;
    members.push(Member { key: key.to_owned(), value });
    assert(member_trees(members@) =~= before.push(member(key@, held)));
}

/// Appends the member `key` with the text `text`.
pub fn push_text(members: &mut Vec<Member>, key: &str, text: &str)
    ensures
        member_trees(final(members)@) == member_trees(old(members)@).push(
            member(key@, JsonTree::Text(text@)),
        ),
{
    push_member(members, key, Json::Text(text.to_owned()));
}

/// Texts as JSON values.
pub fn text_values(strings: &Vec<String>) -> (values: Vec<Json>)
    ensures
        trees(values@) == text_trees(strings@),
{
    broadcast use lemma_trees_push;

    let mut values: Vec<Json> = Vec::new();
    let mut i: usize = 0;
    while i < strings.len()
        invariant
            i <= strings@.len(),
            trees(values@) == text_trees(strings@).take(i as int),
        decreases strings@.len() - i,
    {
        values.push(Json::Text(strings[i].clone()));
        i = i + 1;
        assert(text_trees(strings@).take(i as int) =~= text_trees(strings@).take(i - 1).push(
            JsonTree::Text(strings@[i - 1]@),
        ));
    }
    assert(trees(values@) =~= text_trees(strings@));
    values
}

/// What is found under a key of an object is the value of the last member with that key; nothing is
/// found just where no member has it, and in a value that is no object.
pub proof fn law_last_member_with_a_key_is_found(members: Seq<MemberTree>, key: Seq<char>)
    ensures
        match JsonTree::Object(members).get(key) {
            Some(value) => exists|i: int|
                #![trigger members[i]]
                0 <= i < members.len() && members[i].key == key && members[i].value == value
                    && forall|j: int|
                    i < j < members.len() ==> (#[trigger] members[j]).key != key,
            None => forall|i: int| 0 <= i < members.len() ==> (#[trigger] members[i]).key != key,
        },
    decreases members.len(),
{
    if members.len() > 0 {
        let front = members.drop_last();
        let last = members.len() - 1;
        if members.last().key == key {
            assert(members[last].key == key);
        } else {
            law_last_member_with_a_key_is_found(front, key);
            match lookup(front, key) {
                Some(value) => {
                    let i = choose|i: int|
                        #![trigger front[i]]
                        0 <= i < front.len() && front[i].key == key && front[i].value == value
                            && forall|j: int|
                            i < j < front.len() ==> (#[trigger] front[j]).key != key;
                    assert(members[i] == front[i]);
                    assert forall|j: int| i < j < members.len() implies (
                    #[trigger] members[j]).key != key by {
                        if j < last {
                            assert(front[j] == members[j]);
                        }
                    }
                },
                None => {
                    assert forall|i: int| 0 <= i < members.len() implies (
                    #[trigger] members[i]).key != key by {
                        if i < last {
                            assert(front[i] == members[i]);
                        }
                    }
                },
            }
        }
    }
}

/// A text is found under a key just where the value found there is that text; in a value that is no
/// object nothing is found.
pub proof fn law_texts_are_found_under_their_key(value: JsonTree, key: Seq<char>, text: Seq<char>)
    ensures
        value.text_at(key) == Some(text) <==> value.get(key) == Some(JsonTree::Text(text)),
        !(value is Object) ==> value.get(key) is None,
        value.as_text() == Some(text) <==> value == JsonTree::Text(text),
        value.as_unsigned() is Some ==> value is Number && value.as_unsigned() == value->Number_1,
        value matches JsonTree::Number(_, Some(n)) ==> value.as_unsigned() == Some(n),
{
}

}
