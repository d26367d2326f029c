//! The boundary with the JSON and YAML codecs: texts are parsed and written by
//! `serde_json` and `serde_yaml`, and their trees are carried over, level by
//! level, into trees of this library.

use crate::json::{
    distinct_keys, items_view, lemma_item_below, lemma_member_below, lemma_position_none,
    members_view, number_text, put, well_keyed, Json, JsonValue, Member,
};
use vstd::prelude::*;

verus! {

#[verifier::external_type_specification]
#[verifier::external_body]
pub struct ExTree(serde_json::Value);

/// What a tree of the codec holds.
pub uninterp spec fn tree_of(tree: serde_json::Value) -> Json;

/// The tree that a JSON text is parsed as, if it is one.
pub uninterp spec fn json_parsed(text: Seq<char>) -> Option<Json>;

/// The tree that a YAML text is parsed as, if it is one that JSON can hold.
pub uninterp spec fn yaml_parsed(text: Seq<char>) -> Option<Json>;

/// The decimal digit of a number below ten.
pub open spec fn digit(d: nat) -> char {
    if d == 0 {
        '0'
    } else if d == 1 {
        '1'
    } else if d == 2 {
        '2'
    } else if d == 3 {
        '3'
    } else if d == 4 {
        '4'
    } else if d == 5 {
        '5'
    } else if d == 6 {
        '6'
    } else if d == 7 {
        '7'
    } else if d == 8 {
        '8'
    } else {
        '9'
    }
}

/// A natural number in decimal digits, without leading zeros.
pub open spec fn decimal_text(n: nat) -> Seq<char>
    decreases n,
{
    if n < 10 {
        seq![digit(n)]
    } else {
        decimal_text(n / 10).push(digit(n % 10))
    }
}

/// A tree written on one line.
pub uninterp spec fn compact_text(tree: Json) -> Seq<char>;

/// Whether a number, given as it is written, is an integer that a signed
/// integer of 64 bits holds.
pub uninterp spec fn signed_whole(number: Seq<char>) -> bool;

/// A tree written over several lines with two spaces of indentation.
pub uninterp spec fn pretty_text(tree: Json) -> Option<Seq<char>>;

/// Whether a tree decodes as an OpenAPI v3 document.
pub uninterp spec fn canonical_tree_accepted(tree: Json) -> bool;

#[verifier::external_type_specification]
#[verifier::external_body]
pub struct ExSpec(sw4rm_rs::Spec);

/// Whether the permissive reader reads a tree. It reads or refuses by what
/// the tree holds.
pub uninterp spec fn permissively_accepted(tree: Json) -> bool;

/// What a sequence of codec trees holds.
pub open spec fn trees_of(trees: Seq<serde_json::Value>) -> Seq<Json> {
    Seq::new(trees.len(), |i: int| tree_of(trees[i]))
}

/// What a sequence of keys and codec trees holds.
pub open spec fn entries_of(entries: Seq<(String, serde_json::Value)>) -> Seq<(Seq<char>, Json)> {
    Seq::new(entries.len(), |i: int| (entries[i].0@, tree_of(entries[i].1)))
}

/// The members that a map ends with when `members` are stored one after the
/// other: a key that comes again keeps its first place and takes the later value.
pub open spec fn collapsed(members: Seq<(Seq<char>, Json)>) -> Seq<(Seq<char>, Json)>
    decreases members.len(),
{
    if members.len() == 0 {
        members
    } else {
        put(collapsed(members.drop_last()), members.last().0, members.last().1)
    }
}

/// The items of an array, each as a codec holds it.
pub open spec fn canonical_items(items: Seq<Json>) -> Seq<Json>
    decreases items, 0nat,
{
    Seq::new(
        items.len(),
        |i: int|
            if 0 <= i < items.len() {
                canonical(items[i])
            } else {
                Json::Null
            },
    )
}

/// The members of an object, the value of each as a codec holds it.
pub open spec fn canonical_members(members: Seq<(Seq<char>, Json)>) -> Seq<(Seq<char>, Json)>
    decreases members, 0nat,
{
    Seq::new(
        members.len(),
        |i: int|
            if 0 <= i < members.len() {
                (members[i].0, canonical(members[i].1))
            } else {
                (Seq::empty(), Json::Null)
            },
    )
}

/// The tree as a codec holds it: in every object, a key that comes again is
/// collapsed into its first member.
pub open spec fn canonical(tree: Json) -> Json
    decreases tree, 1nat,
{
    match tree {
        Json::Array(items) => Json::Array(canonical_items(items)),
        Json::Object(members) => Json::Object(collapsed(canonical_members(members))),
        _ => tree,
    }
}

/// Members with distinct keys are stored one after the other as they are.
pub proof fn lemma_collapsed_distinct(members: Seq<(Seq<char>, Json)>)
    requires
        distinct_keys(members),
    ensures
        collapsed(members) == members,
    decreases members.len(),
{
    if members.len() > 0 {
        let front = members.drop_last();
        assert forall|i: int, j: int| 0 <= i < j < front.len() implies (#[trigger] front[i]).0
            != (#[trigger] front[j]).0 by {
            assert(front[i] == members[i]);
            assert(front[j] == members[j]);
        }
        lemma_collapsed_distinct(front);
        assert forall|j: int| 0 <= j < front.len() implies front[j].0 != members.last().0 by {
            assert(front[j] == members[j]);
            assert(members[j].0 != members[members.len() - 1].0);
        }
        lemma_position_none(front, members.last().0);
        assert(front.push(members.last()) =~= members);
    }
}

/// A tree without repeated keys is held by a codec as it is.
pub proof fn lemma_canonical_well_keyed(tree: Json)
    requires
        well_keyed(tree),
    ensures
        canonical(tree) == tree,
    decreases tree,
{
    match tree {
        Json::Array(items) => {
            assert(Json::Array(items)->Array_0 == items);
            assert forall|i: int| 0 <= i < items.len() implies canonical_items(items)[i]
                == items[i] by {
                assert(well_keyed(items[i]));
                lemma_canonical_well_keyed(items[i]);
            }
            assert(canonical_items(items) =~= items);
        },
        Json::Object(members) => {
            assert(Json::Object(members)->Object_0 == members);
            assert forall|i: int| 0 <= i < members.len() implies canonical_members(members)[i]
                == members[i] by {
                assert(well_keyed(members[i].1));
                lemma_canonical_well_keyed(members[i].1);
            }
            assert(canonical_members(members) =~= members);
            lemma_collapsed_distinct(members);
        },
        _ => {},
    }
}

/// `serde_json::from_str` to a tree: the tree that the text is parsed as.
#[verifier::external_body]
fn parse_json_tree(text: &str) -> (parsed: Option<serde_json::Value>)
    ensures
        match parsed {
            Some(tree) => json_parsed(text@) == Some(tree_of(tree)),
            None => json_parsed(text@) is None,
        },
{
    serde_json::from_str::<serde_json::Value>(text).ok()
}

/// `serde_yaml::from_str` to a tree: the tree that the text is parsed as.
#[verifier::external_body]
fn parse_yaml_tree(text: &str) -> (parsed: Option<serde_json::Value>)
    ensures
        match parsed {
            Some(tree) => yaml_parsed(text@) == Some(tree_of(tree)),
            None => yaml_parsed(text@) is None,
        },
{
    serde_yaml::from_str::<serde_json::Value>(text).ok()
}

/// `Number::from` on a `u64`: the number that is written in the decimal
/// digits of the integer.
#[verifier::external_body]
fn integer_number(n: u64) -> (number: serde_json::Number)
    ensures
        number_text(number) == decimal_text(n as nat),
{
    serde_json::Number::from(n)
}

/// `Number::is_i64`: whether the number is an integer that a signed integer
/// of 64 bits holds. A number is written with a fraction or an exponent
/// exactly where it is held as a float, so how it is written decides.
#[verifier::external_body]
pub(crate) fn number_is_whole(number: &serde_json::Number) -> (whole: bool)
    ensures
        whole == signed_whole(number_text(*number)),
{
    number.is_i64()
}

/// `Number::from_f64` on the default of its argument, which is zero: there
/// is such a number, and it is written `0.0`.
#[verifier::external_body]
fn decimal_zero_number() -> (number: Option<serde_json::Number>)
    ensures
        number is Some,
        number_text(number->0) == "0.0"@,
{
    serde_json::Number::from_f64(Default::default())
}

/// `Value::to_string`: the tree on one line.
#[verifier::external_body]
fn write_tree(tree: &serde_json::Value) -> (text: String)
    ensures
        text@ == compact_text(tree_of(*tree)),
{
    tree.to_string()
}

/// `serde_json::to_string_pretty`: the tree over several lines.
#[verifier::external_body]
fn write_tree_pretty(tree: &serde_json::Value) -> (text: Option<String>)
    ensures
        match text {
            Some(t) => pretty_text(tree_of(*tree)) == Some(t@),
            None => pretty_text(tree_of(*tree)) is None,
        },
{
    serde_json::to_string_pretty(tree).ok()
}

/// `Value::as_bool`: the truth value of a boolean tree.
#[verifier::external_body]
fn peek_bool(tree: &serde_json::Value) -> (truth: Option<bool>)
    ensures
        truth == tree_of(*tree).as_bool(),
{
    tree.as_bool()
}

/// `Value::as_number`: the number of a number tree.
#[verifier::external_body]
fn peek_number(tree: &serde_json::Value) -> (number: Option<serde_json::Number>)
    ensures
        match number {
            Some(n) => tree_of(*tree) == Json::Number(number_text(n)),
            None => !(tree_of(*tree) is Number),
        },
{
    tree.as_number().cloned()
}

/// `Value::as_str`: the text of a string tree.
#[verifier::external_body]
fn peek_text(tree: &serde_json::Value) -> (text: Option<String>)
    ensures
        match text {
            Some(t) => tree_of(*tree) == Json::String(t@),
            None => !(tree_of(*tree) is String),
        },
{
    tree.as_str().map(String::from)
}

/// `Value::as_array`: the items of an array tree, in order.
#[verifier::external_body]
fn peek_items(tree: &serde_json::Value) -> (items: Option<Vec<serde_json::Value>>)
    ensures
        match items {
            Some(list) => tree_of(*tree) == Json::Array(trees_of(list@)),
            None => !(tree_of(*tree) is Array),
        },
{
    tree.as_array().cloned()
}

/// `Value::as_object` and `Map::iter`: the members of an object tree, in the
/// order in which the map holds them. A map holds no key twice.
#[verifier::external_body]
fn peek_members(tree: &serde_json::Value) -> (members: Option<Vec<(String, serde_json::Value)>>)
    ensures
        match members {
            Some(list) => tree_of(*tree) == Json::Object(entries_of(list@)) && distinct_keys(
                entries_of(list@),
            ),
            None => !(tree_of(*tree) is Object),
        },
{
    tree.as_object().map(|map| map.iter().map(|(k, v)| (k.clone(), v.clone())).collect())
}

/// `Value::Null`.
#[verifier::external_body]
fn make_null() -> (tree: serde_json::Value)
    ensures
        tree_of(tree) == Json::Null,
{
    serde_json::Value::Null
}

/// `Value::Bool`.
#[verifier::external_body]
fn make_bool(truth: bool) -> (tree: serde_json::Value)
    ensures
        tree_of(tree) == Json::Bool(truth),
{
    serde_json::Value::Bool(truth)
}

/// `Value::Number`.
#[verifier::external_body]
fn make_number(number: serde_json::Number) -> (tree: serde_json::Value)
    ensures
        tree_of(tree) == Json::Number(number_text(number)),
{
    serde_json::Value::Number(number)
}

/// `Value::String`.
#[verifier::external_body]
fn make_text(text: String) -> (tree: serde_json::Value)
    ensures
        tree_of(tree) == Json::String(text@),
{
    serde_json::Value::String(text)
}

/// `Value::Array`.
#[verifier::external_body]
fn make_array(items: Vec<serde_json::Value>) -> (tree: serde_json::Value)
    ensures
        tree_of(tree) == Json::Array(trees_of(items@)),
{
    serde_json::Value::Array(items)
}

/// `Map::from_iter` and `Value::Object`: the members are stored one after the
/// other in the map, which, built with `preserve_order`, keeps the order in
/// which keys first came and gives a key that comes again the later value.
#[verifier::external_body]
fn make_object(members: Vec<(String, serde_json::Value)>) -> (tree: serde_json::Value)
    ensures
        tree_of(tree) == Json::Object(collapsed(entries_of(members@))),
{
    serde_json::Value::Object(serde_json::Map::from_iter(members))
}

/// Carries a codec tree over into a tree of this library.
fn from_tree(tree: &serde_json::Value) -> (value: JsonValue)
    ensures
        value@ == tree_of(*tree),
        well_keyed(value@),
    decreases tree_of(*tree),
{
    if let Some(truth) = peek_bool(tree) {
        JsonValue::Bool(truth)
    } else if let Some(number) = peek_number(tree) {
        JsonValue::Number(number)
    } else if let Some(text) = peek_text(tree) {
        JsonValue::String(text)
    } else if let Some(list) = peek_items(tree) {
        let mut items: Vec<JsonValue> = Vec::new();
        let mut i: usize = 0;
        while i < list.len()
            invariant
                i <= list.len(),
                tree_of(*tree) == Json::Array(trees_of(list@)),
                items.len() == i,
                forall|k: int| 0 <= k < i ==> items@[k]@ == tree_of(list@[k]),
                forall|k: int| 0 <= k < i ==> well_keyed(#[trigger] items@[k]@),
            decreases list.len() - i,
        {
            proof {
                let below = trees_of(list@);
                assert(below[i as int] == tree_of(list@[i as int]));
                lemma_item_below(tree_of(*tree), below, i as int);
            }
            let item = from_tree(&list[i]);
            items.push(item);
            i += 1;
        }
        assert(items_view(items@) =~= trees_of(list@));
        assert forall|k: int| 0 <= k < items_view(items@).len() implies well_keyed(
            #[trigger] items_view(items@)[k],
        ) by {
            assert(well_keyed(items@[k]@));
        }
        JsonValue::Array(items)
    } else if let Some(list) = peek_members(tree) {
        let mut members: Vec<Member> = Vec::new();
        let mut i: usize = 0;
        while i < list.len()
            invariant
                i <= list.len(),
                tree_of(*tree) == Json::Object(entries_of(list@)),
                members.len() == i,
                forall|k: int|
                    0 <= k < i ==> members@[k].key@ == list@[k].0@ && members@[k].value@
                        == tree_of(list@[k].1),
                forall|k: int| 0 <= k < i ==> well_keyed(#[trigger] members@[k].value@),
            decreases list.len() - i,
        {
            proof {
                let below = entries_of(list@);
                assert(below[i as int].1 == tree_of(list@[i as int].1));
                lemma_member_below(tree_of(*tree), below, i as int);
            }
            let value = from_tree(&list[i].1);
            members.push(Member { key: list[i].0.clone(), value });
            i += 1;
        }
        assert(members_view(members@) =~= entries_of(list@));
        assert forall|k: int| 0 <= k < members_view(members@).len() implies well_keyed(
            (#[trigger] members_view(members@)[k]).1,
        ) by {
            assert(well_keyed(members@[k].value@));
        }
        JsonValue::Object(members)
    } else {
        JsonValue::Null
    }
}

/// Carries a tree of this library over into a codec tree.
#[verifier::loop_isolation(false)]
fn to_tree(value: &JsonValue) -> (tree: serde_json::Value)
    ensures
        tree_of(tree) == canonical(value@),
    decreases value,
{
    match value {
        JsonValue::Null => make_null(),
        JsonValue::Bool(truth) => make_bool(*truth),
        JsonValue::Number(number) => make_number(number.clone()),
        JsonValue::String(text) => make_text(text.clone()),
        JsonValue::Array(items) => {
            let mut list: Vec<serde_json::Value> = Vec::new();
            let mut i: usize = 0;
            while i < items.len()
                invariant
                    i <= items.len(),
                    list.len() == i,
                    forall|k: int| 0 <= k < i ==> tree_of(list@[k]) == canonical(items@[k]@),
                decreases items.len() - i,
            {
                assert(decreases_to!(items => items[i as int]));
                let item = to_tree(&items[i]);
                list.push(item);
                i += 1;
            }
            assert(canonical_items(items_view(items@)) =~= trees_of(list@));
            make_array(list)
        },
        JsonValue::Object(members) => {
            let mut list: Vec<(String, serde_json::Value)> = Vec::new();
            let mut i: usize = 0;
            while i < members.len()
                invariant
                    i <= members.len(),
                    list.len() == i,
                    forall|k: int|
                        0 <= k < i ==> list@[k].0@ == members@[k].key@ && tree_of(list@[k].1)
                            == canonical(members@[k].value@),
                decreases members.len() - i,
            {
                assert(decreases_to!(members => members[i as int]));
                let item = to_tree(&members[i].value);
                list.push((members[i].key.clone(), item));
                i += 1;
            }
            assert(canonical_members(members_view(members@)) =~= entries_of(list@));
            make_object(list)
        },
    }
}

/// Parses a JSON text.
pub fn parse_json(text: &str) -> (parsed: Option<JsonValue>)
    ensures
        match parsed {
            Some(value) => json_parsed(text@) == Some(value@) && well_keyed(value@),
            None => json_parsed(text@) is None,
        },
{
    match parse_json_tree(text) {
        Some(tree) => Some(from_tree(&tree)),
        None => None,
    }
}

/// Parses a YAML text.
pub fn parse_yaml(text: &str) -> (parsed: Option<JsonValue>)
    ensures
        match parsed {
            Some(value) => yaml_parsed(text@) == Some(value@) && well_keyed(value@),
            None => yaml_parsed(text@) is None,
        },
{
    match parse_yaml_tree(text) {
        Some(tree) => Some(from_tree(&tree)),
        None => None,
    }
}

/// The number of an integer.
pub fn integer_value(n: u64) -> (value: JsonValue)
    ensures
        value@ == Json::Number(decimal_text(n as nat)),
{
    JsonValue::Number(integer_number(n))
}

/// The decimal number zero, which is written `0.0`.
pub fn decimal_zero_value() -> (value: JsonValue)
    ensures
        value@ == Json::Number("0.0"@),
{
    match decimal_zero_number() {
        Some(number) => JsonValue::Number(number),
        None => JsonValue::Null,
    }
}

/// Writes a tree on one line.
pub fn to_text(value: &JsonValue) -> (text: String)
    ensures
        text@ == compact_text(canonical(value@)),
{
    let tree = to_tree(value);
    write_tree(&tree)
}

/// Writes a tree over several lines, where the codec can.
pub fn to_pretty_text(value: &JsonValue) -> (text: Option<String>)
    ensures
        match text {
            Some(t) => pretty_text(canonical(value@)) == Some(t@),
            None => pretty_text(canonical(value@)) is None,
        },
{
    let tree = to_tree(value);
    write_tree_pretty(&tree)
}

/// `serde_json::from_value` to `openapiv3::OpenAPI`: whether the tree decodes.
#[verifier::external_body]
fn tree_accepted(tree: &serde_json::Value) -> (accepted: bool)
    ensures
        accepted == canonical_tree_accepted(tree_of(*tree)),
{
    serde_json::from_value::<openapiv3::OpenAPI>(tree.clone()).is_ok()
}

/// `serde_json::from_value` to `sw4rm_rs::Spec`: what the permissive reader
/// makes of the tree. Only whether it reads the tree is stated: what it made
/// of it holds hash maps, and is not a value that a tree determines.
#[verifier::external_body]
fn read_spec(tree: &serde_json::Value) -> (read: Option<sw4rm_rs::Spec>)
    ensures
        read is Some <==> permissively_accepted(tree_of(*tree)),
{
    serde_json::from_value::<sw4rm_rs::Spec>(tree.clone()).ok()
}

/// `serde_json::to_value` of a `sw4rm_rs::Spec`: the tree of what the
/// permissive reader read, where it can be written. The reader holds its
/// tables in hash maps, so neither the order of the members of the tree nor
/// anything else of it is stated.
#[verifier::external_body]
fn write_spec(read: &sw4rm_rs::Spec) -> (tree: Option<serde_json::Value>) {
    serde_json::to_value(read).ok()
}

/// Whether a tree decodes as an OpenAPI v3 document.
pub fn accepts_tree(value: &JsonValue) -> (accepted: bool)
    ensures
        accepted == canonical_tree_accepted(canonical(value@)),
{
    let tree = to_tree(value);
    tree_accepted(&tree)
}

/// What the permissive reader made of a tree.
#[derive(Debug, PartialEq)]
pub enum Reread {
    /// The reader refused the tree.
    Refused,
    /// The reader read the tree, and what it read could not be written as a
    /// tree again.
    Unwritten,
    /// The tree of what the reader read.
    Tree(JsonValue),
}

/// The tree that the permissive reader handed back, where it handed one back.
pub open spec fn reread_tree(reread: Reread) -> Option<Json> {
    match reread {
        Reread::Tree(tree) => Some(tree@),
        _ => None,
    }
}

/// Hands a tree to the permissive reader and takes back the tree of what it
/// read. The reader refuses exactly the trees that it does not read as a
/// codec holds them; no object of a tree that it hands back holds a key
/// twice. What the tree that it hands back holds is left open.
pub fn permissive_read(value: &JsonValue) -> (reread: Reread)
    ensures
        reread is Refused <==> !permissively_accepted(canonical(value@)),
        reread matches Reread::Tree(tree) ==> well_keyed(tree@),
{
    let tree = to_tree(value);
    match read_spec(&tree) {
        Some(read) => match write_spec(&read) {
            Some(written) => Reread::Tree(from_tree(&written)),
            None => Reread::Unwritten,
        },
        None => Reread::Refused,
    }
}

} // verus!
