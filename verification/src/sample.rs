//! Resolving references to component schemas, and synthesizing a
//! representative value for a schema.

use crate::document::{named_views, Document, DocumentView, NamedSchema, Schema, SchemaView};
use crate::interop::{
    canonical, compact_text, decimal_text, decimal_zero_value, integer_value, pretty_text,
    to_pretty_text, to_text,
};
use crate::json::{insert, items_view, members_view, put, Json, JsonValue, Member};
use crate::text::{starts_with, starts_with_text, text_eq};
use vstd::prelude::*;

verus! {

/// How deep a sample goes: below this many levels of nesting and of
/// references followed, a null stands in place of the value.
pub const MAX_SAMPLE_DEPTH: usize = 32;

// ---------------------------------------------------------------------------
// References
// ---------------------------------------------------------------------------
/// The name of the component that a reference points at: what follows
/// `#/components/schemas/`. A reference of any other form names none.
pub open spec fn component_name(reference: Seq<char>) -> Option<Seq<char>> {
    if starts_with(reference, "#/components/schemas/"@) {
        Some(reference.skip("#/components/schemas/"@.len() as int))
    } else {
        None
    }
}

/// The first component of that name.
pub open spec fn component(components: Seq<(Seq<char>, SchemaView)>, name: Seq<char>) -> Option<
    SchemaView,
>
    decreases components.len(),
{
    if components.len() == 0 {
        None
    } else if components[0].0 == name {
        Some(components[0].1)
    } else {
        component(components.skip(1), name)
    }
}

/// The schema that a reference resolves to: the component that it names,
/// unless that is a reference itself.
pub open spec fn resolved(document: DocumentView, reference: Seq<char>) -> Option<SchemaView> {
    match component_name(reference) {
        Some(name) => match component(document.components, name) {
            Some(schema) => if schema is Reference {
                None
            } else {
                Some(schema)
            },
            None => None,
        },
        None => None,
    }
}

/// The first component of that name.
fn find_component<'a>(components: &'a Vec<NamedSchema>, name: &str) -> (found: Option<&'a Schema>)
    ensures
        match found {
            Some(schema) => component(named_views(components@), name@) == Some(schema@),
            None => component(named_views(components@), name@) is None,
        },
{
    let ghost model = named_views(components@);
    let mut i: usize = 0;
    assert(model.skip(0) =~= model);
    while i < components.len()
        invariant
            i <= components.len(),
            model == named_views(components@),
            model.len() == components.len(),
            component(model, name@) == component(model.skip(i as int), name@),
        decreases components.len() - i,
    {
        proof {
            assert(model.skip(i as int)[0] == model[i as int]);
            assert(model.skip(i as int).skip(1) =~= model.skip(i + 1));
        }
        if text_eq(components[i].name.as_str(), name) {
            return Some(&components[i].schema);
        }
        i += 1;
    }
    None
}

/// Resolves a reference against the components of the document. Only a
/// reference of the form `#/components/schemas/Name` resolves, and only to
/// a component that is no reference itself.
pub fn resolve_schema_reference<'a>(document: &'a Document, reference: &str) -> (found: Option<
    &'a Schema,
>)
    ensures
        match found {
            Some(schema) => resolved(document@, reference@) == Some(schema@),
            None => resolved(document@, reference@) is None,
        },
{
    if !starts_with_text(reference, "#/components/schemas/") {
        return None;
    }
    let skipped = "#/components/schemas/".unicode_len();
    let name = reference.substring_char(skipped, reference.unicode_len());
    assert(name@ =~= reference@.skip("#/components/schemas/"@.len() as int));
    match find_component(&document.components, name) {
        Some(schema) => match schema {
            Schema::Reference { .. } => None,
            _ => Some(schema),
        },
        None => None,
    }
}

// ---------------------------------------------------------------------------
// Samples
// ---------------------------------------------------------------------------
/// The members of a sample object: for each property in turn, its sample
/// stored under its name.
pub open spec fn sample_members(
    properties: Seq<(Seq<char>, SchemaView)>,
    document: DocumentView,
    depth: nat,
) -> Seq<(Seq<char>, Json)>
    decreases depth, properties.len(), 0nat,
{
    if properties.len() == 0 {
        Seq::empty()
    } else {
        put(
            sample_members(properties.drop_last(), document, depth),
            properties.last().0,
            sample(properties.last().1, document, depth),
        )
    }
}

/// The representative value of a schema, `depth` levels deep at most: the
/// text `string`, the numbers `0` and `0.0`, `false`, an object of the samples
/// of the properties in their order, an array of the one sample of the items
/// (or of nothing), for a reference the sample of what it resolves to or the
/// text `ref`, and a null for any other schema and below the last level.
pub open spec fn sample(schema: SchemaView, document: DocumentView, depth: nat) -> Json
    decreases depth, 0nat, 1nat,
{
    if depth == 0 {
        Json::Null
    } else {
        match schema {
            SchemaView::String => Json::String("string"@),
            SchemaView::Integer => Json::Number("0"@),
            SchemaView::Number => Json::Number("0.0"@),
            SchemaView::Boolean => Json::Bool(false),
            SchemaView::Object { properties, required } => Json::Object(
                sample_members(properties, document, (depth - 1) as nat),
            ),
            SchemaView::Array { items } => match items {
                Some(inner) => Json::Array(seq![sample(*inner, document, (depth - 1) as nat)]),
                None => Json::Array(Seq::empty()),
            },
            SchemaView::Reference { target } => match resolved(document, target) {
                Some(found) => sample(found, document, (depth - 1) as nat),
                None => Json::String("ref"@),
            },
            SchemaView::Unknown => Json::Null,
        }
    }
}

/// Every value of the tree stands fewer than `levels` arrays and objects
/// deep, or is a scalar exactly `levels` deep.
pub open spec fn within_depth(tree: Json, levels: nat) -> bool
    decreases tree,
{
    match tree {
        Json::Array(items) => levels > 0 && forall|i: int|
            0 <= i < items.len() ==> within_depth(#[trigger] items[i], (levels - 1) as nat),
        Json::Object(members) => levels > 0 && forall|i: int|
            0 <= i < members.len() ==> within_depth(
                (#[trigger] members[i]).1,
                (levels - 1) as nat,
            ),
        _ => true,
    }
}

/// A tree within some depth is within every greater depth.
pub proof fn lemma_within_deeper(tree: Json, levels: nat, more: nat)
    requires
        within_depth(tree, levels),
        levels <= more,
    ensures
        within_depth(tree, more),
    decreases tree,
{
    match tree {
        Json::Array(items) => {
            assert forall|i: int| 0 <= i < items.len() implies within_depth(
                #[trigger] items[i],
                (more - 1) as nat,
            ) by {
                lemma_within_deeper(items[i], (levels - 1) as nat, (more - 1) as nat);
            }
        },
        Json::Object(members) => {
            assert forall|i: int| 0 <= i < members.len() implies within_depth(
                (#[trigger] members[i]).1,
                (more - 1) as nat,
            ) by {
                lemma_within_deeper(members[i].1, (levels - 1) as nat, (more - 1) as nat);
            }
        },
        _ => {},
    }
}

/// The samples of the properties of an object are each within the depth that
/// they were made with.
pub proof fn lemma_sample_members_bounded(
    properties: Seq<(Seq<char>, SchemaView)>,
    document: DocumentView,
    depth: nat,
)
    ensures
        forall|i: int|
            0 <= i < sample_members(properties, document, depth).len() ==> within_depth(
                (#[trigger] sample_members(properties, document, depth)[i]).1,
                depth,
            ),
    decreases depth, properties.len(), 0nat,
{
    if properties.len() > 0 {
        let before = sample_members(properties.drop_last(), document, depth);
        let key = properties.last().0;
        let value = sample(properties.last().1, document, depth);
        let after = put(before, key, value);
        lemma_sample_members_bounded(properties.drop_last(), document, depth);
        lemma_sample_bounded(properties.last().1, document, depth);
        crate::json::lemma_position(before, key);
        assert forall|i: int| 0 <= i < after.len() implies within_depth(
            (#[trigger] after[i]).1,
            depth,
        ) by {
            if after[i] != (key, value) {
                assert(after[i] == before[i]);
            }
        }
    }
}

/// Sample synthesis is bounded: whatever the schema and the document, with
/// reference cycles or without, the sample made with `depth` levels is within
/// that depth.
pub proof fn lemma_sample_bounded(schema: SchemaView, document: DocumentView, depth: nat)
    ensures
        within_depth(sample(schema, document, depth), depth),
    decreases depth, 0nat, 1nat,
{
    if depth > 0 {
        let below = (depth - 1) as nat;
        match schema {
            SchemaView::Object { properties, required } => {
                lemma_sample_members_bounded(properties, document, below);
                let members = sample_members(properties, document, below);
                assert(Json::Object(members)->Object_0 == members);
                assert forall|i: int| 0 <= i < members.len() implies within_depth(
                    (#[trigger] members[i]).1,
                    below,
                ) by {}
                assert(within_depth(Json::Object(members), depth));
            },
            SchemaView::Array { items } => match items {
                Some(inner) => {
                    lemma_sample_bounded(*inner, document, below);
                    let list = seq![sample(*inner, document, below)];
                    assert(Json::Array(list)->Array_0 == list);
                    assert forall|i: int| 0 <= i < list.len() implies within_depth(
                        #[trigger] list[i],
                        below,
                    ) by {}
                    assert(within_depth(Json::Array(list), depth));
                },
                None => {
                    let list = Seq::<Json>::empty();
                    assert(Json::Array(list)->Array_0 == list);
                    assert(within_depth(Json::Array(list), depth));
                },
            },
            SchemaView::Reference { target } => match resolved(document, target) {
                Some(found) => {
                    lemma_sample_bounded(found, document, below);
                    lemma_within_deeper(sample(found, document, below), below, depth);
                },
                None => {},
            },
            _ => {},
        }
    }
}

/// The sample of an integer: the number `0`.
fn make_integer_sample() -> (value: JsonValue)
    ensures
        value@ == Json::Number("0"@),
{
    let value = integer_value(0);
    proof {
        reveal_strlit("0");
        assert(decimal_text(0) =~= "0"@);
    }
    value
}

/// The representative value of a schema, `depth` levels deep at most.
#[verifier::loop_isolation(false)]
pub fn sample_to_depth(schema: &Schema, document: &Document, depth: usize) -> (value: JsonValue)
    ensures
        value@ == sample(schema@, document@, depth as nat),
        within_depth(value@, depth as nat),
    decreases depth,
{
    proof {
        lemma_sample_bounded(schema@, document@, depth as nat);
    }
    if depth == 0 {
        return JsonValue::Null;
    }
    match schema {
        Schema::String => JsonValue::string("string"),
        Schema::Integer => make_integer_sample(),
        Schema::Number => decimal_zero_value(),
        Schema::Boolean => JsonValue::Bool(false),
        Schema::Object { properties, required } => {
            let ghost model = named_views(properties@);
            let mut members: Vec<Member> = Vec::new();
            let mut i: usize = 0;
            assert(members_view(members@) =~= sample_members(
                model.take(0),
                document@,
                (depth - 1) as nat,
            ));
            while i < properties.len()
                invariant
                    i <= properties.len(),
                    model.len() == properties.len(),
                    members_view(members@) == sample_members(
                        model.take(i as int),
                        document@,
                        (depth - 1) as nat,
                    ),
                decreases properties.len() - i,
            {
                proof {
                    assert(model.take(i + 1).drop_last() =~= model.take(i as int));
                    assert(model.take(i + 1).last() == model[i as int]);
                }
                let value = sample_to_depth(&properties[i].schema, document, depth - 1);
                insert(&mut members, properties[i].name.as_str(), value);
                i += 1;
            }
            assert(model.take(i as int) =~= model);
            JsonValue::Object(members)
        },
        Schema::Array { items } => match items {
            Some(inner) => {
                let value = sample_to_depth(inner, document, depth - 1);
                let mut list: Vec<JsonValue> = Vec::new();
                list.push(value);
                assert(items_view(list@) =~= seq![value@]);
                JsonValue::Array(list)
            },
            None => {
                let list: Vec<JsonValue> = Vec::new();
                assert(items_view(list@) =~= Seq::empty());
                JsonValue::Array(list)
            },
        },
        Schema::Reference { target } => match resolve_schema_reference(
            document,
            target.as_str(),
        ) {
            Some(found) => sample_to_depth(found, document, depth - 1),
            None => JsonValue::string("ref"),
        },
        Schema::Unknown => JsonValue::Null,
    }
}

/// The representative value of a schema.
pub fn schema_to_json_value(schema: &Schema, document: &Document) -> (value: JsonValue)
    ensures
        value@ == sample(schema@, document@, MAX_SAMPLE_DEPTH as nat),
        within_depth(value@, MAX_SAMPLE_DEPTH as nat),
{
    sample_to_depth(schema, document, MAX_SAMPLE_DEPTH)
}

/// A sample as the text of a request body: an object or an array over
/// several lines (`{}` or `[]` where the codec cannot write it), any other
/// value on one line.
pub open spec fn sample_text(value: Json) -> Seq<char> {
    match value {
        Json::Object(_) => match pretty_text(canonical(value)) {
            Some(text) => text,
            None => "{}"@,
        },
        Json::Array(_) => match pretty_text(canonical(value)) {
            Some(text) => text,
            None => "[]"@,
        },
        _ => compact_text(canonical(value)),
    }
}

/// Writes a sample as the text of a request body.
pub fn write_sample(value: &JsonValue) -> (text: String)
    ensures
        text@ == sample_text(value@),
{
    match value {
        JsonValue::Object(_) => match to_pretty_text(value) {
            Some(text) => text,
            None => String::from_str("{}"),
        },
        JsonValue::Array(_) => match to_pretty_text(value) {
            Some(text) => text,
            None => String::from_str("[]"),
        },
        _ => to_text(value),
    }
}

/// The text of the sample of a schema.
pub fn generate_sample_from_schema(schema: &Schema, document: &Document) -> (text: String)
    ensures
        text@ == sample_text(sample(schema@, document@, MAX_SAMPLE_DEPTH as nat)),
{
    let value = schema_to_json_value(schema, document);
    write_sample(&value)
}

} // verus!


