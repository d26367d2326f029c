//! Reading a canonical description tree into a document. A member that is
//! missing, or null where it may be missing, takes its default; what the
//! decoder of `openapiv3` passes over (a member of the path table that is no
//! path template, a member of a response table that is neither a status nor
//! `default`) is passed over; a member of the wrong shape makes the reading
//! fail.

use crate::document::{
    named_views, view_of, views, Document, DocumentView, Location, MediaType, MediaTypeView,
    NamedSchema, Operation, OperationView, Parameter, ParameterView, PathEntry, PathItem,
    PathItemView, RequestBody, RequestBodyView, Response, ResponseView, Schema, SchemaView,
    Server, Verb,
};
use crate::error::{CurlGeneratorError, ErrorView};
use crate::interop::{number_is_whole, signed_whole};
use crate::json::{
    distinct_keys, get, items_view, lemma_member_below, lemma_value_below, lookup,
    members_view, well_keyed, Json, JsonValue, Member,
};
use crate::text::{chars_of, starts_with, starts_with_text, text_eq};
use vstd::prelude::*;

verus! {

// ---------------------------------------------------------------------------
// Schemas
// ---------------------------------------------------------------------------
/// The texts among the items of an array, in order.
pub open spec fn texts_of(items: Seq<Json>) -> Seq<Seq<char>>
    decreases items.len(),
{
    if items.len() == 0 {
        Seq::empty()
    } else {
        match items.last() {
            Json::String(text) => texts_of(items.drop_last()).push(text),
            _ => texts_of(items.drop_last()),
        }
    }
}

/// The names that a schema tree lists as required.
pub open spec fn required_of(tree: Json) -> Seq<Seq<char>> {
    match tree.get("required"@) {
        Some(Json::Array(items)) => texts_of(items),
        _ => Seq::empty(),
    }
}

/// The schemas of a table: one for each member of the object, under its key.
pub open spec fn schemas_in(table: Json) -> Seq<(Seq<char>, SchemaView)>
    decreases table, 0nat,
{
    match table {
        Json::Object(entries) => Seq::new(
            entries.len(),
            |i: int|
                if 0 <= i < entries.len() {
                    (entries[i].0, schema_of(entries[i].1))
                } else {
                    (Seq::empty(), SchemaView::Unknown)
                },
        ),
        _ => Seq::empty(),
    }
}

/// The properties that a schema tree declares.
pub open spec fn properties_of(tree: Json) -> Seq<(Seq<char>, SchemaView)>
    decreases tree, 1nat,
{
    match tree.get("properties"@) {
        Some(table) => {
            proof {
                lemma_value_below(tree, "properties"@);
            }
            schemas_in(table)
        },
        None => Seq::empty(),
    }
}

/// The schema that a schema tree declares for the items of an array; a null
/// stands for a missing member.
pub open spec fn items_of(tree: Json) -> Option<Box<SchemaView>>
    decreases tree, 1nat,
{
    match tree.get("items"@) {
        Some(Json::Null) => None,
        Some(inner) => {
            proof {
                lemma_value_below(tree, "items"@);
            }
            Some(Box::new(schema_of(inner)))
        },
        None => None,
    }
}

/// Whether a tree holds a member under a key that is not null.
pub open spec fn holds(tree: Json, key: Seq<char>) -> bool {
    match tree.get(key) {
        Some(Json::Null) => false,
        Some(_) => true,
        None => false,
    }
}

/// Whether a schema tree holds a member that limits a text.
pub open spec fn holds_text_limits(tree: Json) -> bool {
    holds(tree, "pattern"@) || holds(tree, "minLength"@) || holds(tree, "maxLength"@)
}

/// Whether a schema tree holds a member that limits a number.
pub open spec fn holds_number_limits(tree: Json) -> bool {
    holds(tree, "multipleOf"@) || holds(tree, "exclusiveMinimum"@) || holds(
        tree,
        "exclusiveMaximum"@,
    ) || holds(tree, "minimum"@) || holds(tree, "maximum"@)
}

/// Whether a schema tree holds a member that describes an object.
pub open spec fn holds_object_members(tree: Json) -> bool {
    holds(tree, "properties"@) || holds(tree, "required"@) || holds(
        tree,
        "additionalProperties"@,
    ) || holds(tree, "minProperties"@) || holds(tree, "maxProperties"@)
}

/// Whether a schema tree holds a member that describes an array.
pub open spec fn holds_array_members(tree: Json) -> bool {
    holds(tree, "items"@) || holds(tree, "minItems"@) || holds(tree, "maxItems"@) || holds(
        tree,
        "uniqueItems"@,
    )
}

/// Whether a schema tree combines other schemas.
pub open spec fn holds_combination(tree: Json) -> bool {
    holds(tree, "oneOf"@) || holds(tree, "allOf"@) || holds(tree, "anyOf"@) || holds(
        tree,
        "not"@,
    )
}

/// Whether a schema tree holds a member that a schema of the kind has no
/// place for.
pub open spec fn foreign_to(tree: Json, kind: Seq<char>) -> bool {
    holds_combination(tree) || (holds_text_limits(tree) && kind != "string"@) || (
    holds_number_limits(tree) && kind != "integer"@ && kind != "number"@) || (
    holds_object_members(tree) && kind != "object"@) || (holds_array_members(tree) && kind
        != "array"@) || (holds(tree, "format"@) && kind != "string"@ && kind != "integer"@ && kind
        != "number"@) || (holds(tree, "enum"@) && (kind == "object"@ || kind == "array"@))
}

/// Whether a value may stand among the values that a schema of the kind
/// lists: a null, or a value of the kind.
pub open spec fn of_kind(value: Json, kind: Seq<char>) -> bool {
    match value {
        Json::Null => true,
        Json::String(_) => kind == "string"@,
        Json::Bool(_) => kind == "boolean"@,
        Json::Number(number) => kind == "number"@ || (kind == "integer"@ && signed_whole(number)),
        _ => false,
    }
}

/// Whether every item is a value that a schema of the kind may list.
pub open spec fn all_of_kind(items: Seq<Json>, kind: Seq<char>) -> bool {
    forall|i: int| 0 <= i < items.len() ==> of_kind(#[trigger] items[i], kind)
}

/// Whether the values that a schema tree lists, if it lists any, are of the
/// kind.
pub open spec fn lists_of_kind(tree: Json, kind: Seq<char>) -> bool {
    match tree.get("enum"@) {
        Some(Json::Array(items)) => all_of_kind(items, kind),
        Some(Json::Null) => true,
        Some(_) => false,
        None => true,
    }
}

/// Whether the number under a key, if there is one, is an integer.
pub open spec fn whole_or_missing(tree: Json, key: Seq<char>) -> bool {
    match tree.get(key) {
        Some(Json::Number(number)) => signed_whole(number),
        Some(Json::Null) => true,
        Some(_) => false,
        None => true,
    }
}

/// Whether a schema tree is a schema of the kind that its `type` names: it
/// holds no member that the kind has no place for, the values that it lists
/// are of the kind, and the limits of an integer are integers.
pub open spec fn typed(tree: Json, kind: Seq<char>) -> bool {
    !foreign_to(tree, kind) && lists_of_kind(tree, kind) && (kind == "integer"@ ==> whole_or_missing(
        tree,
        "multipleOf"@,
    ) && whole_or_missing(tree, "minimum"@) && whole_or_missing(tree, "maximum"@))
}

/// The schema that a tree describes: a reference where it has a `$ref`
/// text, else what its `type` says where it is a schema of that kind, and
/// unknown for every other tree.
pub open spec fn schema_of(tree: Json) -> SchemaView
    decreases tree, 2nat,
{
    match tree.get_str("$ref"@) {
        Some(target) => SchemaView::Reference { target },
        None => match tree.get_str("type"@) {
            Some(kind) => if !typed(tree, kind) {
                SchemaView::Unknown
            } else if kind == "string"@ {
                SchemaView::String
            } else if kind == "integer"@ {
                SchemaView::Integer
            } else if kind == "number"@ {
                SchemaView::Number
            } else if kind == "boolean"@ {
                SchemaView::Boolean
            } else if kind == "object"@ {
                SchemaView::Object { properties: properties_of(tree), required: required_of(tree) }
            } else if kind == "array"@ {
                SchemaView::Array { items: items_of(tree) }
            } else {
                SchemaView::Unknown
            },
            None => SchemaView::Unknown,
        },
    }
}

fn read_texts(items: &Vec<JsonValue>) -> (texts: Vec<String>)
    ensures
        views(texts@) == texts_of(items_view(items@)),
{
    let ghost model = items_view(items@);
    let mut texts: Vec<String> = Vec::new();
    let mut i: usize = 0;
    assert(views(texts@) =~= texts_of(model.take(0)));
    while i < items.len()
        invariant
            i <= items.len(),
            model == items_view(items@),
            views(texts@) == texts_of(model.take(i as int)),
        decreases items.len() - i,
    {
        proof {
            assert(model.take(i + 1).drop_last() =~= model.take(i as int));
            assert(model.take(i + 1).last() == items@[i as int]@);
        }
        match &items[i] {
            JsonValue::String(text) => {
                let ghost before = views(texts@);
                texts.push(text.clone());
                assert(views(texts@) =~= before.push(text@));
            },
            _ => {},
        }
        i += 1;
    }
    assert(model.take(i as int) =~= model);
    texts
}

fn read_schemas(table: &JsonValue) -> (schemas: Vec<NamedSchema>)
    ensures
        named_views(schemas@) == schemas_in(table@),
    decreases table@, 0nat,
{
    match table {
        JsonValue::Object(entries) => {
            let ghost model = members_view(entries@);
            let mut schemas: Vec<NamedSchema> = Vec::new();
            let mut i: usize = 0;
            while i < entries.len()
                invariant
                    i <= entries.len(),
                    model == members_view(entries@),
                    table@ == Json::Object(model),
                    schemas.len() == i,
                    forall|k: int|
                        0 <= k < i ==> schemas@[k].name@ == model[k].0 && schemas@[k].schema@
                            == schema_of(model[k].1),
                decreases entries.len() - i,
            {
                proof {
                    lemma_member_below(table@, model, i as int);
                }
                let schema = read_schema(&entries[i].value);
                schemas.push(NamedSchema { name: entries[i].key.clone(), schema });
                i += 1;
            }
            assert(named_views(schemas@) =~= schemas_in(table@));
            schemas
        },
        _ => {
            let schemas: Vec<NamedSchema> = Vec::new();
            assert(named_views(schemas@) =~= Seq::empty());
            schemas
        },
    }
}

fn holds_member(tree: &JsonValue, key: &str) -> (held: bool)
    ensures
        held == holds(tree@, key@),
{
    match tree.get(key) {
        Some(JsonValue::Null) => false,
        Some(_) => true,
        None => false,
    }
}

fn has_text_limits(tree: &JsonValue) -> (held: bool)
    ensures
        held == holds_text_limits(tree@),
{
    holds_member(tree, "pattern") || holds_member(tree, "minLength") || holds_member(
        tree,
        "maxLength",
    )
}

fn has_number_limits(tree: &JsonValue) -> (held: bool)
    ensures
        held == holds_number_limits(tree@),
{
    holds_member(tree, "multipleOf") || holds_member(tree, "exclusiveMinimum") || holds_member(
        tree,
        "exclusiveMaximum",
    ) || holds_member(tree, "minimum") || holds_member(tree, "maximum")
}

fn has_object_members(tree: &JsonValue) -> (held: bool)
    ensures
        held == holds_object_members(tree@),
{
    holds_member(tree, "properties") || holds_member(tree, "required") || holds_member(
        tree,
        "additionalProperties",
    ) || holds_member(tree, "minProperties") || holds_member(tree, "maxProperties")
}

fn has_array_members(tree: &JsonValue) -> (held: bool)
    ensures
        held == holds_array_members(tree@),
{
    holds_member(tree, "items") || holds_member(tree, "minItems") || holds_member(
        tree,
        "maxItems",
    ) || holds_member(tree, "uniqueItems")
}

fn has_combination(tree: &JsonValue) -> (held: bool)
    ensures
        held == holds_combination(tree@),
{
    holds_member(tree, "oneOf") || holds_member(tree, "allOf") || holds_member(tree, "anyOf")
        || holds_member(tree, "not")
}

fn is_foreign_to(tree: &JsonValue, kind: &str) -> (foreign: bool)
    ensures
        foreign == foreign_to(tree@, kind@),
{
    let text = text_eq(kind, "string");
    let number = text_eq(kind, "integer") || text_eq(kind, "number");
    let object = text_eq(kind, "object");
    let array = text_eq(kind, "array");
    has_combination(tree) || (has_text_limits(tree) && !text) || (has_number_limits(tree)
        && !number) || (has_object_members(tree) && !object) || (has_array_members(tree)
        && !array) || (holds_member(tree, "format") && !text && !number) || (holds_member(
        tree,
        "enum",
    ) && (object || array))
}

fn is_of_kind(value: &JsonValue, kind: &str) -> (fits: bool)
    ensures
        fits == of_kind(value@, kind@),
{
    match value {
        JsonValue::Null => true,
        JsonValue::String(_) => text_eq(kind, "string"),
        JsonValue::Bool(_) => text_eq(kind, "boolean"),
        JsonValue::Number(number) => text_eq(kind, "number") || (text_eq(kind, "integer")
            && number_is_whole(number)),
        _ => false,
    }
}

fn are_of_kind(items: &Vec<JsonValue>, kind: &str) -> (fit: bool)
    ensures
        fit == all_of_kind(items_view(items@), kind@),
{
    let ghost model = items_view(items@);
    let mut i: usize = 0;
    while i < items.len()
        invariant
            i <= items.len(),
            model == items_view(items@),
            forall|j: int| 0 <= j < i ==> of_kind(#[trigger] model[j], kind@),
        decreases items.len() - i,
    {
        assert(model[i as int] == items@[i as int]@);
        if !is_of_kind(&items[i], kind) {
            return false;
        }
        i = i + 1;
    }
    true
}

fn lists_kind(tree: &JsonValue, kind: &str) -> (fit: bool)
    ensures
        fit == lists_of_kind(tree@, kind@),
{
    match tree.get("enum") {
        Some(JsonValue::Array(items)) => are_of_kind(items, kind),
        Some(JsonValue::Null) => true,
        Some(_) => false,
        None => true,
    }
}

fn is_whole_or_missing(tree: &JsonValue, key: &str) -> (whole: bool)
    ensures
        whole == whole_or_missing(tree@, key@),
{
    match tree.get(key) {
        Some(JsonValue::Number(number)) => number_is_whole(number),
        Some(JsonValue::Null) => true,
        Some(_) => false,
        None => true,
    }
}

/// Whether a schema tree is a schema of the kind that its `type` names.
pub fn is_typed(tree: &JsonValue, kind: &str) -> (fits: bool)
    ensures
        fits == typed(tree@, kind@),
{
    !is_foreign_to(tree, kind) && lists_kind(tree, kind) && (!text_eq(kind, "integer") || (
    is_whole_or_missing(tree, "multipleOf") && is_whole_or_missing(tree, "minimum")
        && is_whole_or_missing(tree, "maximum")))
}

/// Reads the schema that a tree describes.
pub fn read_schema(tree: &JsonValue) -> (schema: Schema)
    ensures
        schema@ == schema_of(tree@),
    decreases tree@, 2nat,
{
    match tree.get_str("$ref") {
        Some(target) => Schema::Reference { target: String::from_str(target) },
        None => match tree.get_str("type") {
            Some(kind) => {
                if !is_typed(tree, kind) {
                    Schema::Unknown
                } else if text_eq(kind, "string") {
                    Schema::String
                } else if text_eq(kind, "integer") {
                    Schema::Integer
                } else if text_eq(kind, "number") {
                    Schema::Number
                } else if text_eq(kind, "boolean") {
                    Schema::Boolean
                } else if text_eq(kind, "object") {
                    let properties = match tree.get("properties") {
                        Some(table) => {
                            proof {
                                lemma_value_below(tree@, "properties"@);
                            }
                            read_schemas(table)
                        },
                        None => {
                            let none: Vec<NamedSchema> = Vec::new();
                            assert(named_views(none@) =~= Seq::empty());
                            none
                        },
                    };
                    let required = match tree.get("required") {
                        Some(JsonValue::Array(items)) => read_texts(items),
                        _ => {
                            let none: Vec<String> = Vec::new();
                            assert(views(none@) =~= Seq::empty());
                            none
                        },
                    };
                    Schema::Object { properties, required }
                } else if text_eq(kind, "array") {
                    let items = match tree.get("items") {
                        Some(JsonValue::Null) => None,
                        Some(inner) => {
                            proof {
                                lemma_value_below(tree@, "items"@);
                            }
                            Some(Box::new(read_schema(inner)))
                        },
                        None => None,
                    };
                    Schema::Array { items }
                } else {
                    Schema::Unknown
                }
            },
            None => Schema::Unknown,
        },
    }
}

// ---------------------------------------------------------------------------
// Parameters, request bodies, responses
// ---------------------------------------------------------------------------
/// The text under a key that may be missing; a null stands for a missing
/// member. Nothing is read where the member is neither a text nor a null.
pub open spec fn optional_text(tree: Json, key: Seq<char>) -> Option<Option<Seq<char>>> {
    match tree.get(key) {
        None => Some(None),
        Some(Json::Null) => Some(None),
        Some(Json::String(text)) => Some(Some(text)),
        Some(_) => None,
    }
}

/// The location that a text names.
pub open spec fn location_of(text: Seq<char>) -> Option<Location> {
    if text == "path"@ {
        Some(Location::Path)
    } else if text == "query"@ {
        Some(Location::Query)
    } else if text == "header"@ {
        Some(Location::Header)
    } else if text == "cookie"@ {
        Some(Location::Cookie)
    } else {
        None
    }
}

/// The tree refers to a component instead of describing something itself.
pub open spec fn is_reference(tree: Json) -> bool {
    tree.get_str("$ref"@) is Some
}

/// The schema under the `schema` member of a tree, where it has one; a null
/// stands for a missing member.
pub open spec fn declared_schema(tree: Json) -> Option<SchemaView> {
    match tree.get("schema"@) {
        None => None,
        Some(Json::Null) => None,
        Some(schema) => Some(schema_of(schema)),
    }
}

/// The parameter that a tree describes: an object with a name, a known
/// location and, if any, a description that is a text.
pub open spec fn parameter_of(tree: Json) -> Option<ParameterView> {
    match (tree.get_str("name"@), tree.get_str("in"@), optional_text(tree, "description"@)) {
        (Some(name), Some(place), Some(description)) => match location_of(place) {
            Some(location) => Some(
                ParameterView {
                    name,
                    location,
                    required: tree.get("required"@) == Some(Json::Bool(true)),
                    description,
                    schema: declared_schema(tree),
                },
            ),
            None => None,
        },
        _ => None,
    }
}

/// The parameters that the items of a list describe. A reference to a
/// component is passed over; any other item has to describe a parameter.
pub open spec fn parameters_of(items: Seq<Json>) -> Option<Seq<ParameterView>>
    decreases items.len(),
{
    if items.len() == 0 {
        Some(Seq::empty())
    } else {
        match parameters_of(items.drop_last()) {
            Some(before) => if is_reference(items.last()) {
                Some(before)
            } else {
                match parameter_of(items.last()) {
                    Some(parameter) => Some(before.push(parameter)),
                    None => None,
                }
            },
            None => None,
        }
    }
}

/// The parameters under the `parameters` member of an operation.
pub open spec fn declared_parameters(tree: Json) -> Option<Seq<ParameterView>> {
    match tree.get("parameters"@) {
        None => Some(Seq::empty()),
        Some(Json::Array(items)) => parameters_of(items),
        Some(_) => None,
    }
}

/// The content of a request body, by media type. Every entry has to be an
/// object.
pub open spec fn media_types_of(entries: Seq<(Seq<char>, Json)>) -> Option<Seq<MediaTypeView>>
    decreases entries.len(),
{
    if entries.len() == 0 {
        Some(Seq::empty())
    } else {
        match (media_types_of(entries.drop_last()), entries.last().1) {
            (Some(before), Json::Object(_)) => Some(
                before.push(
                    MediaTypeView {
                        media_type: entries.last().0,
                        schema: declared_schema(entries.last().1),
                    },
                ),
            ),
            _ => None,
        }
    }
}

/// The request body that a tree describes: none for a reference to a
/// component, else the content of an object.
pub open spec fn request_body_of(tree: Json) -> Option<Option<RequestBodyView>> {
    match tree {
        Json::Object(_) => if is_reference(tree) {
            Some(None)
        } else {
            match tree.get("content"@) {
                None => Some(Some(RequestBodyView { content: Seq::empty() })),
                Some(Json::Object(entries)) => match media_types_of(entries) {
                    Some(content) => Some(Some(RequestBodyView { content })),
                    None => None,
                },
                Some(_) => None,
            }
        },
        _ => None,
    }
}

/// The request body under the `requestBody` member of an operation; a null
/// stands for a missing member.
pub open spec fn declared_request_body(tree: Json) -> Option<Option<RequestBodyView>> {
    match tree.get("requestBody"@) {
        None => Some(None),
        Some(Json::Null) => Some(None),
        Some(body) => request_body_of(body),
    }
}

/// The character is a decimal digit.
pub open spec fn is_digit(c: char) -> bool {
    c == '0' || c == '1' || c == '2' || c == '3' || c == '4' || c == '5' || c == '6' || c == '7'
        || c == '8' || c == '9'
}

/// The key names a status: three digits of which the first is not a zero,
/// or a digit followed by two letters `x`, small or capital.
pub open spec fn is_status(key: Seq<char>) -> bool {
    key.len() == 3 && ((is_digit(key[0]) && key[0] != '0' && is_digit(key[1]) && is_digit(key[2]))
        || (is_digit(key[0]) && (key[1] == 'x' || key[1] == 'X') && (key[2] == 'x' || key[2]
        == 'X')))
}

/// The member of a response table describes a response: it stands under a
/// status or under `default`, and is no null under `default`. Every other
/// member is passed over.
pub open spec fn holds_response(key: Seq<char>, value: Json) -> bool {
    is_status(key) || (key == "default"@ && !(value is Null))
}

/// The responses of a table, by status, in document order. A member that
/// holds a response has to be an object whose description, if any, is a
/// text; every other member is passed over.
pub open spec fn responses_of(entries: Seq<(Seq<char>, Json)>) -> Option<Seq<ResponseView>>
    decreases entries.len(),
{
    if entries.len() == 0 {
        Some(Seq::empty())
    } else {
        match responses_of(entries.drop_last()) {
            Some(before) => if !holds_response(entries.last().0, entries.last().1) {
                Some(before)
            } else {
                match (entries.last().1, optional_text(entries.last().1, "description"@)) {
                    (Json::Object(_), Some(description)) => Some(
                        before.push(ResponseView { status: entries.last().0, description }),
                    ),
                    _ => None,
                }
            },
            None => None,
        }
    }
}

/// The responses under the `responses` member of an operation.
pub open spec fn declared_responses(tree: Json) -> Option<Seq<ResponseView>> {
    match tree.get("responses"@) {
        None => Some(Seq::empty()),
        Some(Json::Object(entries)) => responses_of(entries),
        Some(_) => None,
    }
}

fn read_optional_text(tree: &JsonValue, key: &str) -> (text: Option<Option<String>>)
    ensures
        match text {
            Some(found) => optional_text(tree@, key@) == Some(view_of(found)),
            None => optional_text(tree@, key@) is None,
        },
{
    match tree.get(key) {
        None => Some(None),
        Some(JsonValue::Null) => Some(None),
        Some(JsonValue::String(text)) => Some(Some(text.clone())),
        Some(_) => None,
    }
}

fn is_digit_char(c: char) -> (digit: bool)
    ensures
        digit == is_digit(c),
{
    c == '0' || c == '1' || c == '2' || c == '3' || c == '4' || c == '5' || c == '6' || c == '7'
        || c == '8' || c == '9'
}

fn is_status_key(key: &str) -> (status: bool)
    ensures
        status == is_status(key@),
{
    let chars = chars_of(key);
    if chars.len() != 3 {
        return false;
    }
    let first = is_digit_char(chars[0]);
    let code = first && chars[0] != '0' && is_digit_char(chars[1]) && is_digit_char(chars[2]);
    let range = first && (chars[1] == 'x' || chars[1] == 'X') && (chars[2] == 'x' || chars[2]
        == 'X');
    code || range
}

fn read_location(text: &str) -> (location: Option<Location>)
    ensures
        location == location_of(text@),
{
    if text_eq(text, "path") {
        Some(Location::Path)
    } else if text_eq(text, "query") {
        Some(Location::Query)
    } else if text_eq(text, "header") {
        Some(Location::Header)
    } else if text_eq(text, "cookie") {
        Some(Location::Cookie)
    } else {
        None
    }
}

fn read_declared_schema(tree: &JsonValue) -> (schema: Option<Schema>)
    ensures
        view_of(schema) == declared_schema(tree@),
{
    match tree.get("schema") {
        None => None,
        Some(JsonValue::Null) => None,
        Some(schema) => Some(read_schema(schema)),
    }
}

fn read_parameter(tree: &JsonValue) -> (parameter: Option<Parameter>)
    ensures
        view_of(parameter) == parameter_of(tree@),
{
    let name = match tree.get_str("name") {
        Some(name) => name,
        None => {
            return None;
        },
    };
    let place = match tree.get_str("in") {
        Some(place) => place,
        None => {
            return None;
        },
    };
    let description = match read_optional_text(tree, "description") {
        Some(description) => description,
        None => {
            return None;
        },
    };
    let location = match read_location(place) {
        Some(location) => location,
        None => {
            return None;
        },
    };
    let required = match tree.get("required") {
        Some(JsonValue::Bool(marked)) => *marked,
        _ => false,
    };
    Some(
        Parameter {
            name: String::from_str(name),
            location,
            required,
            description,
            schema: read_declared_schema(tree),
        },
    )
}

fn read_parameters(items: &Vec<JsonValue>) -> (parameters: Option<Vec<Parameter>>)
    ensures
        match parameters {
            Some(list) => parameters_of(items_view(items@)) == Some(views(list@)),
            None => parameters_of(items_view(items@)) is None,
        },
{
    let ghost model = items_view(items@);
    let mut list: Vec<Parameter> = Vec::new();
    let mut i: usize = 0;
    assert(views(list@) =~= Seq::empty());
    assert(model.take(0) =~= Seq::empty());
    while i < items.len()
        invariant
            i <= items.len(),
            model == items_view(items@),
            parameters_of(model.take(i as int)) == Some(views(list@)),
        decreases items.len() - i,
    {
        proof {
            assert(model.take(i + 1).drop_last() =~= model.take(i as int));
            assert(model.take(i + 1).last() == items@[i as int]@);
        }
        if items[i].get_str("$ref").is_none() {
            match read_parameter(&items[i]) {
                Some(parameter) => {
                    let ghost before = views(list@);
                    list.push(parameter);
                    assert(views(list@) =~= before.push(parameter@));
                },
                None => {
                    proof {
                        lemma_parameters_fail(model, i + 1);
                    }
                    return None;
                },
            }
        }
        i += 1;
    }
    assert(model.take(i as int) =~= model);
    Some(list)
}

/// A list whose beginning describes no parameters describes none.
proof fn lemma_parameters_fail(items: Seq<Json>, upto: int)
    requires
        0 <= upto <= items.len(),
        parameters_of(items.take(upto)) is None,
    ensures
        parameters_of(items) is None,
    decreases items.len() - upto,
{
    if upto < items.len() {
        assert(items.take(upto + 1).drop_last() =~= items.take(upto));
        lemma_parameters_fail(items, upto + 1);
    } else {
        assert(items.take(upto) =~= items);
    }
}

fn read_declared_parameters(tree: &JsonValue) -> (parameters: Option<Vec<Parameter>>)
    ensures
        match parameters {
            Some(list) => declared_parameters(tree@) == Some(views(list@)),
            None => declared_parameters(tree@) is None,
        },
{
    match tree.get("parameters") {
        None => {
            let list: Vec<Parameter> = Vec::new();
            assert(views(list@) =~= Seq::empty());
            Some(list)
        },
        Some(JsonValue::Array(items)) => read_parameters(items),
        Some(_) => None,
    }
}

/// A table whose beginning holds no content holds none.
proof fn lemma_media_types_fail(entries: Seq<(Seq<char>, Json)>, upto: int)
    requires
        0 <= upto <= entries.len(),
        media_types_of(entries.take(upto)) is None,
    ensures
        media_types_of(entries) is None,
    decreases entries.len() - upto,
{
    if upto < entries.len() {
        assert(entries.take(upto + 1).drop_last() =~= entries.take(upto));
        lemma_media_types_fail(entries, upto + 1);
    } else {
        assert(entries.take(upto) =~= entries);
    }
}

fn read_media_types(entries: &Vec<Member>) -> (content: Option<Vec<MediaType>>)
    ensures
        match content {
            Some(list) => media_types_of(members_view(entries@)) == Some(views(list@)),
            None => media_types_of(members_view(entries@)) is None,
        },
{
    let ghost model = members_view(entries@);
    let mut list: Vec<MediaType> = Vec::new();
    let mut i: usize = 0;
    assert(views(list@) =~= Seq::empty());
    assert(model.take(0) =~= Seq::empty());
    while i < entries.len()
        invariant
            i <= entries.len(),
            model == members_view(entries@),
            media_types_of(model.take(i as int)) == Some(views(list@)),
        decreases entries.len() - i,
    {
        proof {
            assert(model.take(i + 1).drop_last() =~= model.take(i as int));
            assert(model.take(i + 1).last() == model[i as int]);
        }
        match &entries[i].value {
            JsonValue::Object(_) => {
                let ghost before = views(list@);
                let entry = MediaType {
                    media_type: entries[i].key.clone(),
                    schema: read_declared_schema(&entries[i].value),
                };
                list.push(entry);
                assert(views(list@) =~= before.push(entry@));
            },
            _ => {
                proof {
                    lemma_media_types_fail(model, i + 1);
                }
                return None;
            },
        }
        i += 1;
    }
    assert(model.take(i as int) =~= model);
    Some(list)
}

fn read_request_body(tree: &JsonValue) -> (body: Option<Option<RequestBody>>)
    ensures
        match body {
            Some(found) => request_body_of(tree@) == Some(view_of(found)),
            None => request_body_of(tree@) is None,
        },
{
    match tree {
        JsonValue::Object(_) => {
            if tree.get_str("$ref").is_some() {
                Some(None)
            } else {
                match tree.get("content") {
                    None => {
                        let body = RequestBody { content: Vec::new() };
                        assert(body@.content =~= Seq::empty());
                        Some(Some(body))
                    },
                    Some(JsonValue::Object(entries)) => match read_media_types(entries) {
                        Some(content) => Some(Some(RequestBody { content })),
                        None => None,
                    },
                    Some(_) => None,
                }
            }
        },
        _ => None,
    }
}

fn read_declared_request_body(tree: &JsonValue) -> (body: Option<Option<RequestBody>>)
    ensures
        match body {
            Some(found) => declared_request_body(tree@) == Some(view_of(found)),
            None => declared_request_body(tree@) is None,
        },
{
    match tree.get("requestBody") {
        None => Some(None),
        Some(JsonValue::Null) => Some(None),
        Some(body) => read_request_body(body),
    }
}

/// A table whose beginning holds no responses holds none.
proof fn lemma_responses_fail(entries: Seq<(Seq<char>, Json)>, upto: int)
    requires
        0 <= upto <= entries.len(),
        responses_of(entries.take(upto)) is None,
    ensures
        responses_of(entries) is None,
    decreases entries.len() - upto,
{
    if upto < entries.len() {
        assert(entries.take(upto + 1).drop_last() =~= entries.take(upto));
        lemma_responses_fail(entries, upto + 1);
    } else {
        assert(entries.take(upto) =~= entries);
    }
}

fn read_responses(entries: &Vec<Member>) -> (responses: Option<Vec<Response>>)
    ensures
        match responses {
            Some(list) => responses_of(members_view(entries@)) == Some(views(list@)),
            None => responses_of(members_view(entries@)) is None,
        },
{
    let ghost model = members_view(entries@);
    let mut list: Vec<Response> = Vec::new();
    let mut i: usize = 0;
    assert(views(list@) =~= Seq::empty());
    assert(model.take(0) =~= Seq::empty());
    while i < entries.len()
        invariant
            i <= entries.len(),
            model == members_view(entries@),
            responses_of(model.take(i as int)) == Some(views(list@)),
        decreases entries.len() - i,
    {
        proof {
            assert(model.take(i + 1).drop_last() =~= model.take(i as int));
            assert(model.take(i + 1).last() == model[i as int]);
        }
        let held = is_status_key(entries[i].key.as_str()) || (text_eq(
            entries[i].key.as_str(),
            "default",
        ) && match &entries[i].value {
            JsonValue::Null => false,
            _ => true,
        });
        if held {
            let description = match &entries[i].value {
                JsonValue::Object(_) => read_optional_text(&entries[i].value, "description"),
                _ => None,
            };
            match description {
                Some(description) => {
                    let ghost before = views(list@);
                    let response = Response { status: entries[i].key.clone(), description };
                    list.push(response);
                    assert(views(list@) =~= before.push(response@));
                },
                None => {
                    proof {
                        lemma_responses_fail(model, i + 1);
                    }
                    return None;
                },
            }
        }
        i += 1;
    }
    assert(model.take(i as int) =~= model);
    Some(list)
}

fn read_declared_responses(tree: &JsonValue) -> (responses: Option<Vec<Response>>)
    ensures
        match responses {
            Some(list) => declared_responses(tree@) == Some(views(list@)),
            None => declared_responses(tree@) is None,
        },
{
    match tree.get("responses") {
        None => {
            let list: Vec<Response> = Vec::new();
            assert(views(list@) =~= Seq::empty());
            Some(list)
        },
        Some(JsonValue::Object(entries)) => read_responses(entries),
        Some(_) => None,
    }
}

// ---------------------------------------------------------------------------
// Operations and paths
// ---------------------------------------------------------------------------
/// The operation that a tree describes: an object whose identifier, summary
/// and description, if any, are texts, with its parameters, request body and
/// responses.
pub open spec fn operation_of(tree: Json) -> Option<OperationView> {
    match (
        tree,
        optional_text(tree, "operationId"@),
        optional_text(tree, "summary"@),
        optional_text(tree, "description"@),
        declared_parameters(tree),
        declared_request_body(tree),
        declared_responses(tree),
    ) {
        (
            Json::Object(_),
            Some(operation_id),
            Some(summary),
            Some(description),
            Some(parameters),
            Some(request_body),
            Some(responses),
        ) => Some(
            OperationView {
                operation_id,
                summary,
                description,
                parameters,
                request_body,
                responses,
            },
        ),
        _ => None,
    }
}

/// The operation that a path item binds to a verb, if any; a null stands
/// for a missing member.
pub open spec fn bound_operation(tree: Json, verb: Verb) -> Option<Option<OperationView>> {
    match tree.get(verb.key()) {
        None => Some(None),
        Some(Json::Null) => Some(None),
        Some(operation) => match operation_of(operation) {
            Some(found) => Some(Some(found)),
            None => None,
        },
    }
}

/// A path item without operations.
pub open spec fn empty_item() -> PathItemView {
    PathItemView {
        get: None,
        put: None,
        post: None,
        delete: None,
        options: None,
        head: None,
        patch: None,
        trace: None,
    }
}

/// The path item that a tree describes: an object with the operation that
/// it binds to each verb. A reference stands for an item without operations.
pub open spec fn path_item_of(tree: Json) -> Option<PathItemView> {
    match tree {
        Json::Object(_) => if is_reference(tree) {
            Some(empty_item())
        } else {
            match (
                bound_operation(tree, Verb::Get),
                bound_operation(tree, Verb::Put),
                bound_operation(tree, Verb::Post),
                bound_operation(tree, Verb::Delete),
                bound_operation(tree, Verb::Options),
                bound_operation(tree, Verb::Head),
                bound_operation(tree, Verb::Patch),
                bound_operation(tree, Verb::Trace),
            ) {
                (
                    Some(get),
                    Some(put),
                    Some(post),
                    Some(delete),
                    Some(options),
                    Some(head),
                    Some(patch),
                    Some(trace),
                ) => Some(PathItemView { get, put, post, delete, options, head, patch, trace }),
                _ => None,
            }
        },
        _ => None,
    }
}

/// The key of a member of the path table is a path template: it begins with
/// a slash.
pub open spec fn is_template(key: Seq<char>) -> bool {
    starts_with(key, "/"@)
}

/// The entries of a path table, in document order. A member under a path
/// template has to describe a path item; every other member is passed over.
pub open spec fn paths_of(entries: Seq<(Seq<char>, Json)>) -> Option<
    Seq<(Seq<char>, PathItemView)>,
>
    decreases entries.len(),
{
    if entries.len() == 0 {
        Some(Seq::empty())
    } else {
        match paths_of(entries.drop_last()) {
            Some(before) => if !is_template(entries.last().0) {
                Some(before)
            } else {
                match path_item_of(entries.last().1) {
                    Some(item) => Some(before.push((entries.last().0, item))),
                    None => None,
                }
            },
            None => None,
        }
    }
}

/// The path table under the `paths` member of a description.
pub open spec fn declared_paths(tree: Json) -> Option<Seq<(Seq<char>, PathItemView)>> {
    match tree.get("paths"@) {
        None => Some(Seq::empty()),
        Some(Json::Object(entries)) => paths_of(entries),
        Some(_) => None,
    }
}

/// The URLs of the servers of a list. Every item has to have a `url` text.
pub open spec fn servers_of(items: Seq<Json>) -> Option<Seq<Seq<char>>>
    decreases items.len(),
{
    if items.len() == 0 {
        Some(Seq::empty())
    } else {
        match (servers_of(items.drop_last()), items.last().get_str("url"@)) {
            (Some(before), Some(url)) => Some(before.push(url)),
            _ => None,
        }
    }
}

/// The servers under the `servers` member of a description.
pub open spec fn declared_servers(tree: Json) -> Option<Seq<Seq<char>>> {
    match tree.get("servers"@) {
        None => Some(Seq::empty()),
        Some(Json::Array(items)) => servers_of(items),
        Some(_) => None,
    }
}

/// The component schemas of a description: those of the `schemas` table of
/// its `components`; a null stands for missing components.
pub open spec fn declared_components(tree: Json) -> Option<Seq<(Seq<char>, SchemaView)>> {
    match tree.get("components"@) {
        None => Some(Seq::empty()),
        Some(Json::Null) => Some(Seq::empty()),
        Some(Json::Object(components)) => match get(components, "schemas"@) {
            None => Some(Seq::empty()),
            Some(Json::Object(entries)) => Some(schemas_in(Json::Object(entries))),
            Some(_) => None,
        },
        Some(_) => None,
    }
}

/// The document that a canonical description tree is read as.
pub open spec fn document_of(tree: Json) -> Option<DocumentView> {
    match (tree, declared_servers(tree), declared_paths(tree), declared_components(tree)) {
        (Json::Object(_), Some(servers), Some(paths), Some(components)) => Some(
            DocumentView { servers, paths, components },
        ),
        _ => None,
    }
}

/// The document that a canonical description tree is read as, or the error
/// that says that it has not the structure of one.
pub open spec fn decoded(tree: Json) -> Result<DocumentView, ErrorView> {
    match document_of(tree) {
        Some(document) => Ok(document),
        None => Err(ErrorView::InvalidSpecification),
    }
}

/// Reads the operation that a tree describes.
pub fn read_operation(tree: &JsonValue) -> (operation: Option<Operation>)
    ensures
        view_of(operation) == operation_of(tree@),
{
    match tree {
        JsonValue::Object(_) => {},
        _ => {
            return None;
        },
    }
    let operation_id = match read_optional_text(tree, "operationId") {
        Some(found) => found,
        None => {
            return None;
        },
    };
    let summary = match read_optional_text(tree, "summary") {
        Some(found) => found,
        None => {
            return None;
        },
    };
    let description = match read_optional_text(tree, "description") {
        Some(found) => found,
        None => {
            return None;
        },
    };
    let parameters = match read_declared_parameters(tree) {
        Some(found) => found,
        None => {
            return None;
        },
    };
    let request_body = match read_declared_request_body(tree) {
        Some(found) => found,
        None => {
            return None;
        },
    };
    let responses = match read_declared_responses(tree) {
        Some(found) => found,
        None => {
            return None;
        },
    };
    Some(Operation { operation_id, summary, description, parameters, request_body, responses })
}

fn read_bound_operation(tree: &JsonValue, verb: Verb) -> (operation: Option<Option<Operation>>)
    ensures
        match operation {
            Some(found) => bound_operation(tree@, verb) == Some(view_of(found)),
            None => bound_operation(tree@, verb) is None,
        },
{
    match tree.get(verb.key_name()) {
        None => Some(None),
        Some(JsonValue::Null) => Some(None),
        Some(operation) => match read_operation(operation) {
            Some(found) => Some(Some(found)),
            None => None,
        },
    }
}

/// Reads the path item that a tree describes.
pub fn read_path_item(tree: &JsonValue) -> (item: Option<PathItem>)
    ensures
        view_of(item) == path_item_of(tree@),
{
    match tree {
        JsonValue::Object(_) => {},
        _ => {
            return None;
        },
    }
    if tree.get_str("$ref").is_some() {
        return Some(
            PathItem {
                get: None,
                put: None,
                post: None,
                delete: None,
                options: None,
                head: None,
                patch: None,
                trace: None,
            },
        );
    }
    let get = match read_bound_operation(tree, Verb::Get) {
        Some(found) => found,
        None => {
            return None;
        },
    };
    let put = match read_bound_operation(tree, Verb::Put) {
        Some(found) => found,
        None => {
            return None;
        },
    };
    let post = match read_bound_operation(tree, Verb::Post) {
        Some(found) => found,
        None => {
            return None;
        },
    };
    let delete = match read_bound_operation(tree, Verb::Delete) {
        Some(found) => found,
        None => {
            return None;
        },
    };
    let options = match read_bound_operation(tree, Verb::Options) {
        Some(found) => found,
        None => {
            return None;
        },
    };
    let head = match read_bound_operation(tree, Verb::Head) {
        Some(found) => found,
        None => {
            return None;
        },
    };
    let patch = match read_bound_operation(tree, Verb::Patch) {
        Some(found) => found,
        None => {
            return None;
        },
    };
    let trace = match read_bound_operation(tree, Verb::Trace) {
        Some(found) => found,
        None => {
            return None;
        },
    };
    Some(PathItem { get, put, post, delete, options, head, patch, trace })
}

/// A table whose beginning holds no path items holds none.
proof fn lemma_paths_fail(entries: Seq<(Seq<char>, Json)>, upto: int)
    requires
        0 <= upto <= entries.len(),
        paths_of(entries.take(upto)) is None,
    ensures
        paths_of(entries) is None,
    decreases entries.len() - upto,
{
    if upto < entries.len() {
        assert(entries.take(upto + 1).drop_last() =~= entries.take(upto));
        lemma_paths_fail(entries, upto + 1);
    } else {
        assert(entries.take(upto) =~= entries);
    }
}

fn read_paths(entries: &Vec<Member>) -> (paths: Option<Vec<PathEntry>>)
    ensures
        match paths {
            Some(list) => paths_of(members_view(entries@)) == Some(views(list@)),
            None => paths_of(members_view(entries@)) is None,
        },
{
    let ghost model = members_view(entries@);
    let mut list: Vec<PathEntry> = Vec::new();
    let mut i: usize = 0;
    assert(views(list@) =~= Seq::empty());
    assert(model.take(0) =~= Seq::empty());
    while i < entries.len()
        invariant
            i <= entries.len(),
            model == members_view(entries@),
            paths_of(model.take(i as int)) == Some(views(list@)),
        decreases entries.len() - i,
    {
        proof {
            assert(model.take(i + 1).drop_last() =~= model.take(i as int));
            assert(model.take(i + 1).last() == model[i as int]);
        }
        if starts_with_text(entries[i].key.as_str(), "/") {
            match read_path_item(&entries[i].value) {
                Some(item) => {
                    let ghost before = views(list@);
                    let entry = PathEntry { template: entries[i].key.clone(), item };
                    list.push(entry);
                    assert(views(list@) =~= before.push(entry@));
                },
                None => {
                    proof {
                        lemma_paths_fail(model, i + 1);
                    }
                    return None;
                },
            }
        }
        i += 1;
    }
    assert(model.take(i as int) =~= model);
    Some(list)
}

/// A list whose beginning holds no servers holds none.
proof fn lemma_servers_fail(items: Seq<Json>, upto: int)
    requires
        0 <= upto <= items.len(),
        servers_of(items.take(upto)) is None,
    ensures
        servers_of(items) is None,
    decreases items.len() - upto,
{
    if upto < items.len() {
        assert(items.take(upto + 1).drop_last() =~= items.take(upto));
        lemma_servers_fail(items, upto + 1);
    } else {
        assert(items.take(upto) =~= items);
    }
}

fn read_servers(items: &Vec<JsonValue>) -> (servers: Option<Vec<Server>>)
    ensures
        match servers {
            Some(list) => servers_of(items_view(items@)) == Some(views(list@)),
            None => servers_of(items_view(items@)) is None,
        },
{
    let ghost model = items_view(items@);
    let mut list: Vec<Server> = Vec::new();
    let mut i: usize = 0;
    assert(views(list@) =~= Seq::empty());
    assert(model.take(0) =~= Seq::empty());
    while i < items.len()
        invariant
            i <= items.len(),
            model == items_view(items@),
            servers_of(model.take(i as int)) == Some(views(list@)),
        decreases items.len() - i,
    {
        proof {
            assert(model.take(i + 1).drop_last() =~= model.take(i as int));
            assert(model.take(i + 1).last() == items@[i as int]@);
        }
        match items[i].get_str("url") {
            Some(url) => {
                let ghost before = views(list@);
                list.push(Server { url: String::from_str(url) });
                assert(views(list@) =~= before.push(url@));
            },
            None => {
                proof {
                    lemma_servers_fail(model, i + 1);
                }
                return None;
            },
        }
        i += 1;
    }
    assert(model.take(i as int) =~= model);
    Some(list)
}

/// The templates of the entries that are read from a path table are keys of
/// the table, and they are distinct where the keys are.
pub proof fn lemma_paths_distinct(entries: Seq<(Seq<char>, Json)>)
    requires
        distinct_keys(entries),
        paths_of(entries) is Some,
    ensures
        forall|i: int|
            0 <= i < paths_of(entries)->0.len() ==> exists|j: int|
                0 <= j < entries.len() && entries[j].0 == (#[trigger] paths_of(entries)->0[i]).0,
        forall|i: int, j: int|
            0 <= i < j < paths_of(entries)->0.len() ==> (#[trigger] paths_of(entries)->0[i]).0 != (
            #[trigger] paths_of(entries)->0[j]).0,
    decreases entries.len(),
{
    if entries.len() > 0 {
        let front = entries.drop_last();
        let last = entries.last();
        assert forall|i: int, j: int| 0 <= i < j < front.len() implies (#[trigger] front[i]).0
            != (#[trigger] front[j]).0 by {
            assert(front[i] == entries[i]);
            assert(front[j] == entries[j]);
        }
        lemma_paths_distinct(front);
        let before = paths_of(front)->0;
        let after = paths_of(entries)->0;
        assert forall|i: int| 0 <= i < after.len() implies exists|j: int|
            0 <= j < entries.len() && entries[j].0 == (#[trigger] after[i]).0 by {
            if i < before.len() {
                assert(after[i] == before[i]);
                let j = choose|j: int| 0 <= j < front.len() && front[j].0 == before[i].0;
                assert(entries[j] == front[j]);
            } else {
                assert(entries[entries.len() - 1].0 == after[i].0);
            }
        }
        assert forall|i: int, j: int| 0 <= i < j < after.len() implies (#[trigger] after[i]).0 != (
        #[trigger] after[j]).0 by {
            assert(after[i] == before[i]);
            if j < before.len() {
                assert(after[j] == before[j]);
            } else {
                let k = choose|k: int| 0 <= k < front.len() && front[k].0 == before[i].0;
                assert(entries[k] == front[k]);
                assert(entries[k].0 != entries[entries.len() - 1].0);
            }
        }
    }
}

/// A description without repeated keys is read as a well-formed document.
pub proof fn lemma_decoded_well_formed(tree: Json)
    requires
        well_keyed(tree),
        document_of(tree) is Some,
    ensures
        document_of(tree)->0.well_formed(),
{
    assert(Json::Object(tree.members())->Object_0 == tree.members());
    match tree.get("paths"@) {
        Some(Json::Object(entries)) => {
            lemma_value_keyed(tree, "paths"@);
            assert(Json::Object(entries)->Object_0 == entries);
            lemma_paths_distinct(entries);
        },
        _ => {},
    }
    match tree.get("components"@) {
        Some(Json::Object(components)) => {
            lemma_value_keyed(tree, "components"@);
            assert(Json::Object(components)->Object_0 == components);
            match get(components, "schemas"@) {
                Some(Json::Object(schemas)) => {
                    lemma_value_keyed(Json::Object(components), "schemas"@);
                    assert(Json::Object(schemas)->Object_0 == schemas);
                    let read = schemas_in(Json::Object(schemas));
                    assert forall|i: int, j: int| 0 <= i < j < read.len() implies (
                    #[trigger] read[i]).0 != (#[trigger] read[j]).0 by {
                        assert(schemas[i].0 != schemas[j].0);
                    }
                },
                _ => {},
            }
        },
        _ => {},
    }
}

/// What a tree without repeated keys stores under a key has none either.
pub proof fn lemma_value_keyed(tree: Json, key: Seq<char>)
    requires
        well_keyed(tree),
    ensures
        tree.get(key) is Some ==> well_keyed(tree.get(key)->0),
{
    match tree {
        Json::Object(members) => {
            assert(Json::Object(members)->Object_0 == members);
            crate::json::lemma_position(members, key);
            match crate::json::position(members, key) {
                Some(at) => {
                    assert(well_keyed(members[at].1));
                },
                None => {},
            }
        },
        _ => {
            crate::json::lemma_position(Seq::empty(), key);
        },
    }
}

/// Reads a canonical description tree into a document. The document of a
/// tree without repeated keys is well formed.
pub fn decode_document(tree: &JsonValue) -> (document: Result<Document, CurlGeneratorError>)
    ensures
        match document {
            Ok(found) => decoded(tree@) == Ok::<DocumentView, ErrorView>(found@),
            Err(error) => decoded(tree@) == Err::<DocumentView, ErrorView>(error@),
        },
        document is Ok && well_keyed(tree@) ==> document->Ok_0@.well_formed(),
{
    proof {
        if well_keyed(tree@) && document_of(tree@) is Some {
            lemma_decoded_well_formed(tree@);
        }
    }
    match tree {
        JsonValue::Object(_) => {},
        _ => {
            return Err(CurlGeneratorError::InvalidSpecification);
        },
    }
    let servers = match tree.get("servers") {
        None => {
            let list: Vec<Server> = Vec::new();
            assert(views(list@) =~= Seq::empty());
            Some(list)
        },
        Some(JsonValue::Array(items)) => read_servers(items),
        Some(_) => None,
    };
    let servers = match servers {
        Some(found) => found,
        None => {
            return Err(CurlGeneratorError::InvalidSpecification);
        },
    };
    let paths = match tree.get("paths") {
        None => {
            let list: Vec<PathEntry> = Vec::new();
            assert(views(list@) =~= Seq::empty());
            Some(list)
        },
        Some(JsonValue::Object(entries)) => read_paths(entries),
        Some(_) => None,
    };
    let paths = match paths {
        Some(found) => found,
        None => {
            return Err(CurlGeneratorError::InvalidSpecification);
        },
    };
    let components = match tree.get("components") {
        None => {
            let list: Vec<NamedSchema> = Vec::new();
            assert(named_views(list@) =~= Seq::empty());
            Some(list)
        },
        Some(JsonValue::Null) => {
            let list: Vec<NamedSchema> = Vec::new();
            assert(named_views(list@) =~= Seq::empty());
            Some(list)
        },
        Some(JsonValue::Object(components)) => match lookup(components, "schemas") {
            None => {
                let list: Vec<NamedSchema> = Vec::new();
                assert(named_views(list@) =~= Seq::empty());
                Some(list)
            },
            Some(table) => match table {
                JsonValue::Object(_) => Some(read_schemas(table)),
                _ => None,
            },
        },
        Some(_) => None,
    };
    let components = match components {
        Some(found) => found,
        None => {
            return Err(CurlGeneratorError::InvalidSpecification);
        },
    };
    Ok(Document { servers, paths, components })
}

} // verus!
