//! A JSON tree: the dynamically shaped value that a description is read into
//! before it becomes a document, with its mathematical model.

use crate::text::text_eq;
use vstd::prelude::*;

verus! {

/// The mathematical model of a JSON tree. A number is held as its decimal
/// text; an object is the sequence of its members in document order.
pub enum Json {
    Null,
    Bool(bool),
    Number(Seq<char>),
    String(Seq<char>),
    Array(Seq<Json>),
    Object(Seq<(Seq<char>, Json)>),
}

/// The place of the first member stored under `key`, if there is one.
pub open spec fn position(members: Seq<(Seq<char>, Json)>, key: Seq<char>) -> Option<int>
    decreases members.len(),
{
    if members.len() == 0 {
        None
    } else if members[0].0 == key {
        Some(0)
    } else {
        match position(members.skip(1), key) {
            Some(i) => Some(i + 1),
            None => None,
        }
    }
}

/// The value stored under `key`.
pub open spec fn get(members: Seq<(Seq<char>, Json)>, key: Seq<char>) -> Option<Json> {
    match position(members, key) {
        Some(i) => Some(members[i].1),
        None => None,
    }
}

/// Whether a member is stored under `key`.
pub open spec fn has(members: Seq<(Seq<char>, Json)>, key: Seq<char>) -> bool {
    position(members, key) is Some
}

/// The members with `value` stored under `key`: in the place of the member
/// that had the key, or at the end where none had it.
pub open spec fn put(members: Seq<(Seq<char>, Json)>, key: Seq<char>, value: Json) -> Seq<
    (Seq<char>, Json),
> {
    match position(members, key) {
        Some(i) => members.update(i, (key, value)),
        None => members.push((key, value)),
    }
}

/// The members without the one stored under `key`; the others keep their order.
pub open spec fn del(members: Seq<(Seq<char>, Json)>, key: Seq<char>) -> Seq<(Seq<char>, Json)> {
    match position(members, key) {
        Some(i) => members.remove(i),
        None => members,
    }
}

/// The members with `value` stored under `key` where there is a value, and
/// unchanged where there is none.
pub open spec fn put_some(
    members: Seq<(Seq<char>, Json)>,
    key: Seq<char>,
    value: Option<Json>,
) -> Seq<(Seq<char>, Json)> {
    match value {
        Some(v) => put(members, key, v),
        None => members,
    }
}

/// An object with one member.
pub open spec fn one(key: Seq<char>, value: Json) -> Json {
    Json::Object(seq![(key, value)])
}

impl Json {
    /// The members of an object; nothing for any other value.
    pub open spec fn members(self) -> Seq<(Seq<char>, Json)> {
        match self {
            Json::Object(members) => members,
            _ => Seq::empty(),
        }
    }

    /// The value that an object stores under `key`.
    pub open spec fn get(self, key: Seq<char>) -> Option<Json> {
        get(self.members(), key)
    }

    /// The text of a string value.
    pub open spec fn as_str(self) -> Option<Seq<char>> {
        match self {
            Json::String(text) => Some(text),
            _ => None,
        }
    }

    /// The truth value of a boolean.
    pub open spec fn as_bool(self) -> Option<bool> {
        match self {
            Json::Bool(b) => Some(b),
            _ => None,
        }
    }

    /// The text that an object stores under `key`, where that is a string.
    pub open spec fn get_str(self, key: Seq<char>) -> Option<Seq<char>> {
        match self.get(key) {
            Some(Json::String(text)) => Some(text),
            _ => None,
        }
    }
}

/// What `position` finds, said without recursion.
pub proof fn lemma_position(members: Seq<(Seq<char>, Json)>, key: Seq<char>)
    ensures
        match position(members, key) {
            Some(i) => 0 <= i < members.len() && members[i].0 == key && forall|j: int|
                0 <= j < i ==> members[j].0 != key,
            None => forall|j: int| 0 <= j < members.len() ==> members[j].0 != key,
        },
    decreases members.len(),
{
    if members.len() == 0 || members[0].0 == key {
    } else {
        let rest = members.skip(1);
        lemma_position(rest, key);
        match position(rest, key) {
            Some(i) => {
                assert forall|j: int| 0 <= j < i + 1 implies members[j].0 != key by {
                    if j > 0 {
                        assert(rest[j - 1] == members[j]);
                    }
                }
            },
            None => {
                assert forall|j: int| 0 <= j < members.len() implies members[j].0 != key by {
                    if j > 0 {
                        assert(rest[j - 1] == members[j]);
                    }
                }
            },
        }
    }
}

/// The first member under `key` stands where no earlier member has the key.
pub proof fn lemma_position_at(members: Seq<(Seq<char>, Json)>, key: Seq<char>, at: int)
    requires
        0 <= at < members.len(),
        members[at].0 == key,
        forall|j: int| 0 <= j < at ==> members[j].0 != key,
    ensures
        position(members, key) == Some(at),
    decreases members.len(),
{
    if at > 0 {
        let rest = members.skip(1);
        assert forall|j: int| 0 <= j < at - 1 implies rest[j].0 != key by {
            assert(rest[j] == members[j + 1]);
        }
        lemma_position_at(rest, key, at - 1);
    }
}

/// No member is found under a key that none of them has.
pub proof fn lemma_position_none(members: Seq<(Seq<char>, Json)>, key: Seq<char>)
    requires
        forall|j: int| 0 <= j < members.len() ==> members[j].0 != key,
    ensures
        position(members, key) is None,
    decreases members.len(),
{
    if members.len() > 0 {
        let rest = members.skip(1);
        assert forall|j: int| 0 <= j < rest.len() implies rest[j].0 != key by {
            assert(rest[j] == members[j + 1]);
        }
        lemma_position_none(rest, key);
    }
}

/// The value of a member is a smaller tree than the object.
pub proof fn lemma_member_below(tree: Json, members: Seq<(Seq<char>, Json)>, i: int)
    requires
        tree == Json::Object(members),
        0 <= i < members.len(),
    ensures
        decreases_to!(tree => members[i].1),
{
    match tree {
        Json::Object(below) => {
            assert(decreases_to!(tree => below));
            assert(decreases_to!(below => below[i]));
            assert(decreases_to!(below[i] => below[i].1));
        },
        _ => {},
    }
}

/// An item of an array is a smaller tree than the array.
pub proof fn lemma_item_below(tree: Json, items: Seq<Json>, i: int)
    requires
        tree == Json::Array(items),
        0 <= i < items.len(),
    ensures
        decreases_to!(tree => items[i]),
{
    match tree {
        Json::Array(below) => {
            assert(decreases_to!(tree => below));
            assert(decreases_to!(below => below[i]));
        },
        _ => {},
    }
}

/// What an object stores under a key is a smaller tree than the object.
pub proof fn lemma_value_below(tree: Json, key: Seq<char>)
    ensures
        tree.get(key) is Some ==> decreases_to!(tree => tree.get(key)->0),
{
    match tree {
        Json::Object(members) => {
            lemma_position(members, key);
            match position(members, key) {
                Some(at) => {
                    lemma_member_below(tree, members, at);
                },
                None => {},
            }
        },
        _ => {
            lemma_position(Seq::empty(), key);
        },
    }
}

/// No two members are stored under the same key.
pub open spec fn distinct_keys(members: Seq<(Seq<char>, Json)>) -> bool {
    forall|i: int, j: int|
        0 <= i < j < members.len() ==> (#[trigger] members[i]).0 != (#[trigger] members[j]).0
}

/// In every object of the tree, at any depth, no two members are stored
/// under the same key.
pub open spec fn well_keyed(tree: Json) -> bool
    decreases tree,
{
    match tree {
        Json::Array(items) => forall|i: int|
            0 <= i < items.len() ==> well_keyed(#[trigger] items[i]),
        Json::Object(members) => distinct_keys(members) && forall|i: int|
            0 <= i < members.len() ==> well_keyed((#[trigger] members[i]).1),
        _ => true,
    }
}

/// What is found under a key after a value was stored: the value under the
/// key it was stored under, and under any other key what was there before.
pub proof fn lemma_get_put(
    members: Seq<(Seq<char>, Json)>,
    key: Seq<char>,
    value: Json,
    other: Seq<char>,
)
    ensures
        get(put(members, key, value), other) == if other == key {
            Some(value)
        } else {
            get(members, other)
        },
{
    let after = put(members, key, value);
    lemma_position(members, key);
    lemma_position(members, other);
    match position(members, other) {
        Some(at) => {
            if other == key {
                lemma_position_at(after, other, at);
            } else {
                assert(after[at] == members[at]);
                assert forall|j: int| 0 <= j < at implies after[j].0 != other by {
                    assert(after[j].0 == members[j].0 || after[j].0 == key);
                }
                lemma_position_at(after, other, at);
            }
        },
        None => {
            if other == key {
                lemma_position_at(after, other, members.len() as int);
            } else {
                assert forall|j: int| 0 <= j < after.len() implies after[j].0 != other by {
                    if j < members.len() {
                        assert(after[j].0 == members[j].0 || after[j].0 == key);
                    }
                }
                lemma_position_none(after, other);
            }
        },
    }
}

/// What is found under a key after a member was taken out: under another
/// key what was there before, and under the same key, where the keys are
/// distinct, nothing.
pub proof fn lemma_get_del(members: Seq<(Seq<char>, Json)>, key: Seq<char>, other: Seq<char>)
    ensures
        other != key ==> get(del(members, key), other) == get(members, other),
        distinct_keys(members) ==> get(del(members, key), key) is None,
{
    let after = del(members, key);
    lemma_position(members, key);
    lemma_position(members, other);
    match position(members, key) {
        Some(gone) => {
            assert forall|j: int| 0 <= j < after.len() implies after[j] == members[if j < gone {
                j
            } else {
                j + 1
            }] by {}
            if other != key {
                match position(members, other) {
                    Some(at) => {
                        let moved = if at < gone {
                            at
                        } else {
                            at - 1
                        };
                        assert(after[moved] == members[at]);
                        lemma_position_at(after, other, moved);
                    },
                    None => {
                        lemma_position_none(after, other);
                    },
                }
            }
            if distinct_keys(members) {
                assert forall|j: int| 0 <= j < after.len() implies after[j].0 != key by {
                    let from = if j < gone {
                        j
                    } else {
                        j + 1
                    };
                    assert(after[j] == members[from]);
                    if from > gone {
                        assert(members[gone].0 != members[from].0);
                    }
                }
                lemma_position_none(after, key);
            }
        },
        None => {},
    }
}

#[verifier::external_type_specification]
#[verifier::external_body]
pub struct ExNumber(serde_json::Number);

/// The decimal text that a JSON number is written as.
pub uninterp spec fn number_text(n: serde_json::Number) -> Seq<char>;

/// `Clone::clone` of a number: the copy is written as the same text.
pub assume_specification[ <serde_json::Number as Clone>::clone ](n: &serde_json::Number) -> (copy:
    serde_json::Number)
    ensures
        number_text(copy) == number_text(*n),
;

/// One member of an object: a key and the value stored under it.
#[derive(Debug, PartialEq)]
pub struct Member {
    pub key: String,
    pub value: JsonValue,
}

/// A JSON tree as held in memory.
#[derive(Debug, PartialEq)]
pub enum JsonValue {
    Null,
    Bool(bool),
    Number(serde_json::Number),
    String(String),
    Array(Vec<JsonValue>),
    Object(Vec<Member>),
}

/// The models of the items of an array.
pub open spec fn items_view(items: Seq<JsonValue>) -> Seq<Json>
    decreases items, 0nat,
{
    Seq::new(
        items.len(),
        |i: int|
            if 0 <= i < items.len() {
                items[i].view()
            } else {
                Json::Null
            },
    )
}

/// The models of the members of an object.
pub open spec fn members_view(members: Seq<Member>) -> Seq<(Seq<char>, Json)>
    decreases members, 0nat,
{
    Seq::new(
        members.len(),
        |i: int|
            if 0 <= i < members.len() {
                (members[i].key@, members[i].value.view())
            } else {
                (Seq::empty(), Json::Null)
            },
    )
}

impl View for JsonValue {
    type V = Json;

    open spec fn view(&self) -> Json
        decreases self, 1nat,
    {
        match self {
            JsonValue::Null => Json::Null,
            JsonValue::Bool(b) => Json::Bool(*b),
            JsonValue::Number(n) => Json::Number(number_text(*n)),
            JsonValue::String(s) => Json::String(s@),
            JsonValue::Array(items) => Json::Array(items_view(items@)),
            JsonValue::Object(members) => Json::Object(members_view(members@)),
        }
    }
}

/// The model of a tree that may be missing.
pub open spec fn option_view(value: Option<JsonValue>) -> Option<Json> {
    match value {
        Some(v) => Some(v@),
        None => None,
    }
}

/// Where the first member under `key` stands.
pub fn find(members: &Vec<Member>, key: &str) -> (at: Option<usize>)
    ensures
        match at {
            Some(i) => position(members_view(members@), key@) == Some(i as int) && i
                < members.len(),
            None => position(members_view(members@), key@) is None,
        },
{
    let ghost model = members_view(members@);
    let mut i: usize = 0;
    while i < members.len()
        invariant
            i <= members.len(),
            model == members_view(members@),
            forall|j: int| 0 <= j < i ==> model[j].0 != key@,
        decreases members.len() - i,
    {
        if text_eq(members[i].key.as_str(), key) {
            proof {
                lemma_position_at(model, key@, i as int);
            }
            return Some(i);
        }
        i += 1;
    }
    proof {
        lemma_position_none(model, key@);
    }
    None
}

/// The value stored under `key`.
pub fn lookup<'a>(members: &'a Vec<Member>, key: &str) -> (found: Option<&'a JsonValue>)
    ensures
        match found {
            Some(value) => get(members_view(members@), key@) == Some(value@),
            None => get(members_view(members@), key@) is None,
        },
{
    match find(members, key) {
        Some(i) => Some(&members[i].value),
        None => None,
    }
}

/// Stores `value` under `key`: in the place of the member that had the key,
/// or at the end where none had it.
pub fn insert(members: &mut Vec<Member>, key: &str, value: JsonValue)
    ensures
        members_view(final(members)@) == put(members_view(old(members)@), key@, value@),
{
    let at = find(members, key);
    let member = Member { key: String::from_str(key), value };
    match at {
        Some(i) => {
            members.set(i, member);
            assert(members_view(members@) =~= put(members_view(old(members)@), key@, value@));
        },
        None => {
            members.push(member);
            assert(members_view(members@) =~= put(members_view(old(members)@), key@, value@));
        },
    }
}

/// Stores `value` under `key` where there is a value.
pub fn insert_some(members: &mut Vec<Member>, key: &str, value: Option<JsonValue>)
    ensures
        members_view(final(members)@) == put_some(
            members_view(old(members)@),
            key@,
            option_view(value),
        ),
{
    match value {
        Some(v) => insert(members, key, v),
        None => {},
    }
}

/// Takes the member stored under `key` out and hands its value back.
pub fn remove(members: &mut Vec<Member>, key: &str) -> (taken: Option<JsonValue>)
    ensures
        members_view(final(members)@) == del(members_view(old(members)@), key@),
        option_view(taken) == get(members_view(old(members)@), key@),
{
    match find(members, key) {
        Some(i) => {
            let member = members.remove(i);
            assert(members_view(members@) =~= del(members_view(old(members)@), key@));
            Some(member.value)
        },
        None => None,
    }
}

/// Adds a member at the end, whatever the keys that are there.
pub fn push_member(members: &mut Vec<Member>, key: &str, value: JsonValue)
    ensures
        members_view(final(members)@) == members_view(old(members)@).push((key@, value@)),
{
    members.push(Member { key: String::from_str(key), value });
    assert(members_view(members@) =~= members_view(old(members)@).push((key@, value@)));
}

impl JsonValue {
    /// An object with the one member `key`.
    pub fn single(key: &str, value: JsonValue) -> (object: JsonValue)
        ensures
            object@ == one(key@, value@),
    {
        let mut members: Vec<Member> = Vec::new();
        members.push(Member { key: String::from_str(key), value });
        assert(members_view(members@) =~= seq![(key@, value@)]);
        JsonValue::Object(members)
    }

    /// A string value holding `text`.
    pub fn string(text: &str) -> (value: JsonValue)
        ensures
            value@ == Json::String(text@),
    {
        JsonValue::String(String::from_str(text))
    }

    /// The members of an object.
    pub fn as_object(&self) -> (members: Option<&Vec<Member>>)
        ensures
            match members {
                Some(ms) => self@ == Json::Object(members_view(ms@)),
                None => !(self@ is Object),
            },
    {
        match self {
            JsonValue::Object(members) => Some(members),
            _ => None,
        }
    }

    /// The items of an array.
    pub fn as_array(&self) -> (items: Option<&Vec<JsonValue>>)
        ensures
            match items {
                Some(list) => self@ == Json::Array(items_view(list@)),
                None => !(self@ is Array),
            },
    {
        match self {
            JsonValue::Array(items) => Some(items),
            _ => None,
        }
    }

    /// The text of a string value.
    pub fn as_str(&self) -> (text: Option<&str>)
        ensures
            match text {
                Some(t) => self@.as_str() == Some(t@),
                None => self@.as_str() is None,
            },
    {
        match self {
            JsonValue::String(text) => Some(text.as_str()),
            _ => None,
        }
    }

    /// The truth value of a boolean.
    pub fn as_bool(&self) -> (truth: Option<bool>)
        ensures
            truth == self@.as_bool(),
    {
        match self {
            JsonValue::Bool(b) => Some(*b),
            _ => None,
        }
    }

    /// The value that an object stores under `key`.
    pub fn get(&self, key: &str) -> (found: Option<&JsonValue>)
        ensures
            match found {
                Some(value) => self@.get(key@) == Some(value@),
                None => self@.get(key@) is None,
            },
    {
        match self {
            JsonValue::Object(members) => lookup(members, key),
            _ => {
                proof {
                    assert(self@.members() =~= Seq::empty());
                }
                None
            },
        }
    }

    /// The text that an object stores under `key`, where that is a string.
    pub fn get_str(&self, key: &str) -> (text: Option<&str>)
        ensures
            match text {
                Some(t) => self@.get_str(key@) == Some(t@),
                None => self@.get_str(key@) is None,
            },
    {
        match self.get(key) {
            Some(value) => value.as_str(),
            None => None,
        }
    }

    /// A copy of the whole tree.
    #[verifier::loop_isolation(false)]
    pub fn deep_clone(&self) -> (copy: JsonValue)
        ensures
            copy@ == self@,
        decreases self,
    {
        match self {
            JsonValue::Null => JsonValue::Null,
            JsonValue::Bool(b) => JsonValue::Bool(*b),
            JsonValue::Number(n) => JsonValue::Number(n.clone()),
            JsonValue::String(s) => JsonValue::String(s.clone()),
            JsonValue::Array(items) => {
                let mut copies: Vec<JsonValue> = Vec::new();
                let mut i: usize = 0;
                while i < items.len()
                    invariant
                        i <= items.len(),
                        copies.len() == i,
                        forall|k: int| 0 <= k < i ==> copies@[k]@ == items@[k]@,
                    decreases items.len() - i,
                {
                    assert(decreases_to!(items => items[i as int]));
                    let item = items[i].deep_clone();
                    copies.push(item);
                    i += 1;
                }
                assert(items_view(copies@) =~= items_view(items@));
                JsonValue::Array(copies)
            },
            JsonValue::Object(members) => {
                let mut copies: Vec<Member> = Vec::new();
                let mut i: usize = 0;
                while i < members.len()
                    invariant
                        i <= members.len(),
                        copies.len() == i,
                        forall|k: int|
                            0 <= k < i ==> copies@[k].key@ == members@[k].key@ && copies@[k].value@
                                == members@[k].value@,
                    decreases members.len() - i,
                {
                    assert(decreases_to!(members => members[i as int]));
                    let value = members[i].value.deep_clone();
                    copies.push(Member { key: members[i].key.clone(), value });
                    i += 1;
                }
                assert(members_view(copies@) =~= members_view(members@));
                JsonValue::Object(copies)
            },
        }
    }
}

impl Clone for JsonValue {
    fn clone(&self) -> (copy: Self)
        ensures
            copy@ == self@,
    {
        self.deep_clone()
    }
}

} // verus!
