//! A second way from a legacy (Swagger 2.x) description to the canonical
//! shape: instead of rewriting the tree in place, it reads the members that a
//! legacy description is known to have, each with the type it must have, and
//! builds a fresh canonical tree from them. A member of the wrong type makes
//! it fail.

use crate::convert::{
    body_parameter, free_members, free_of_legacy_references, lemma_free_array,
    lemma_free_object, lemma_free_put, lemma_plain_key, lemma_repointed_never_legacy, located,
    make_server_url, repoint, repointed, server_list, server_url,
};
use crate::decode::optional_text;
use crate::error::{CurlGeneratorError, ErrorView};
use crate::json::{
    get, insert_some, items_view, lemma_get_put, lemma_position, members_view, one, option_view,
    push_member, put, put_some, Json, JsonValue, Member,
};
use crate::text::{lemma_differ_at, lemma_lengths_differ, text_eq};
use vstd::prelude::*;

verus! {

// ---------------------------------------------------------------------------
// Typed members
// ---------------------------------------------------------------------------
/// Every item of the list is a text.
pub open spec fn all_texts(items: Seq<Json>) -> bool {
    forall|i: int| 0 <= i < items.len() ==> (#[trigger] items[i]) is String
}

/// The list of texts under a key that may be missing. Nothing is read where
/// the member is no list of texts.
pub open spec fn optional_texts(tree: Json, key: Seq<char>) -> Option<Option<Json>> {
    match tree.get(key) {
        None => Some(None),
        Some(Json::Array(items)) => if all_texts(items) {
            Some(Some(Json::Array(items)))
        } else {
            None
        },
        Some(_) => None,
    }
}

/// The flag under a key that may be missing. Nothing is read where the
/// member is no boolean.
pub open spec fn optional_flag(tree: Json, key: Seq<char>) -> Option<Option<bool>> {
    match tree.get(key) {
        None => Some(None),
        Some(Json::Bool(flag)) => Some(Some(flag)),
        Some(_) => None,
    }
}

/// A text as a tree, where there is one.
pub open spec fn text_tree(text: Option<Seq<char>>) -> Option<Json> {
    match text {
        Some(t) => Some(Json::String(t)),
        None => None,
    }
}

/// The content of a body or response with this schema: the schema under
/// `application/json`.
pub open spec fn json_content(schema: Json) -> Json {
    one("application/json"@, one("schema"@, schema))
}

fn read_text(tree: &JsonValue, key: &str) -> (text: Option<Option<JsonValue>>)
    ensures
        match text {
            Some(found) => optional_text(tree@, key@) is Some && option_view(found) == text_tree(
                optional_text(tree@, key@)->0,
            ),
            None => optional_text(tree@, key@) is None,
        },
{
    match tree.get(key) {
        None => Some(None),
        Some(JsonValue::Null) => Some(None),
        Some(JsonValue::String(text)) => Some(Some(JsonValue::String(text.clone()))),
        Some(_) => None,
    }
}

fn read_texts(tree: &JsonValue, key: &str) -> (texts: Option<Option<JsonValue>>)
    ensures
        match texts {
            Some(found) => optional_texts(tree@, key@) == Some(option_view(found)),
            None => optional_texts(tree@, key@) is None,
        },
{
    match tree.get(key) {
        None => Some(None),
        Some(JsonValue::Array(items)) => {
            let ghost model = items_view(items@);
            let mut i: usize = 0;
            while i < items.len()
                invariant
                    i <= items.len(),
                    model == items_view(items@),
                    tree@.get(key@) == Some(Json::Array(model)),
                    forall|k: int| 0 <= k < i ==> (#[trigger] model[k]) is String,
                decreases items.len() - i,
            {
                match &items[i] {
                    JsonValue::String(_) => {},
                    _ => {
                        assert(!(model[i as int] is String));
                        return None;
                    },
                }
                i += 1;
            }
            Some(Some(tree.get(key).unwrap().deep_clone()))
        },
        Some(_) => None,
    }
}

fn read_flag(tree: &JsonValue, key: &str) -> (flag: Option<Option<bool>>)
    ensures
        flag == optional_flag(tree@, key@),
{
    match tree.get(key) {
        None => Some(None),
        Some(JsonValue::Bool(flag)) => Some(Some(*flag)),
        Some(_) => None,
    }
}

// ---------------------------------------------------------------------------
// Schemas
// ---------------------------------------------------------------------------
/// The canonical schema of a legacy schema: its reference, pointed at the
/// components, where it has one; else its type, format, description and
/// enumeration. Nothing where the tree is no object or a member has not the
/// type it must have.
pub open spec fn typed_schema(tree: Json) -> Option<Json> {
    match (
        tree,
        optional_text(tree, "$ref"@),
        optional_text(tree, "type"@),
        optional_text(tree, "format"@),
        optional_text(tree, "description"@),
        optional_texts(tree, "enum"@),
    ) {
        (
            Json::Object(_),
            Some(reference),
            Some(kind),
            Some(format),
            Some(description),
            Some(values),
        ) => Some(
            match reference {
                Some(target) => one(
                    "$ref"@,
                    Json::String(repointed(target)),
                ),
                None => Json::Object(
                    put_some(
                        put_some(
                            put_some(
                                put_some(Seq::empty(), "type"@, text_tree(kind)),
                                "format"@,
                                text_tree(format),
                            ),
                            "description"@,
                            text_tree(description),
                        ),
                        "enum"@,
                        values,
                    ),
                ),
            },
        ),
        _ => None,
    }
}

/// The canonical schema of the legacy schema under the `schema` member,
/// where there is one.
pub open spec fn typed_inner_schema(tree: Json) -> Option<Option<Json>> {
    match tree.get("schema"@) {
        None => Some(None),
        Some(schema) => match typed_schema(schema) {
            Some(converted) => Some(Some(converted)),
            None => None,
        },
    }
}

/// Converts a legacy schema that has the members and types it must have.
pub fn convert_v2_schema_to_v3(schema: &JsonValue) -> (out: Option<JsonValue>)
    ensures
        option_view(out) == typed_schema(schema@),
{
    match schema {
        JsonValue::Object(_) => {},
        _ => {
            return None;
        },
    }
    let target = match schema.get("$ref") {
        None => None,
        Some(JsonValue::Null) => None,
        Some(JsonValue::String(text)) => Some(text),
        Some(_) => {
            return None;
        },
    };
    let kind = match read_text(schema, "type") {
        Some(found) => found,
        None => {
            return None;
        },
    };
    let format = match read_text(schema, "format") {
        Some(found) => found,
        None => {
            return None;
        },
    };
    let description = match read_text(schema, "description") {
        Some(found) => found,
        None => {
            return None;
        },
    };
    let values = match read_texts(schema, "enum") {
        Some(found) => found,
        None => {
            return None;
        },
    };
    match target {
        Some(text) => {
            let pointed = repoint(text.as_str());
            Some(JsonValue::single("$ref", JsonValue::String(pointed)))
        },
        None => {
            let mut members: Vec<Member> = Vec::new();
            assert(members_view(members@) =~= Seq::empty());
            insert_some(&mut members, "type", kind);
            insert_some(&mut members, "format", format);
            insert_some(&mut members, "description", description);
            insert_some(&mut members, "enum", values);
            Some(JsonValue::Object(members))
        },
    }
}

fn convert_inner_schema(tree: &JsonValue) -> (out: Option<Option<JsonValue>>)
    ensures
        match out {
            Some(found) => typed_inner_schema(tree@) == Some(option_view(found)),
            None => typed_inner_schema(tree@) is None,
        },
{
    match tree.get("schema") {
        None => Some(None),
        Some(schema) => match convert_v2_schema_to_v3(schema) {
            Some(converted) => Some(Some(converted)),
            None => None,
        },
    }
}

/// The canonical schemas of a table of legacy schemas, under their names.
pub open spec fn typed_schemas(entries: Seq<(Seq<char>, Json)>) -> Option<Seq<(Seq<char>, Json)>>
    decreases entries.len(),
{
    if entries.len() == 0 {
        Some(Seq::empty())
    } else {
        match (typed_schemas(entries.drop_last()), typed_schema(entries.last().1)) {
            (Some(before), Some(schema)) => Some(before.push((entries.last().0, schema))),
            _ => None,
        }
    }
}

proof fn lemma_schemas_fail(entries: Seq<(Seq<char>, Json)>, upto: int)
    requires
        0 <= upto <= entries.len(),
        typed_schemas(entries.take(upto)) is None,
    ensures
        typed_schemas(entries) is None,
    decreases entries.len() - upto,
{
    if upto < entries.len() {
        assert(entries.take(upto + 1).drop_last() =~= entries.take(upto));
        lemma_schemas_fail(entries, upto + 1);
    } else {
        assert(entries.take(upto) =~= entries);
    }
}

fn convert_schemas(entries: &Vec<Member>) -> (out: Option<Vec<Member>>)
    ensures
        match out {
            Some(list) => typed_schemas(members_view(entries@)) == Some(members_view(list@)),
            None => typed_schemas(members_view(entries@)) is None,
        },
{
    let ghost model = members_view(entries@);
    let mut list: Vec<Member> = Vec::new();
    let mut i: usize = 0;
    assert(members_view(list@) =~= Seq::empty());
    assert(model.take(0) =~= Seq::empty());
    while i < entries.len()
        invariant
            i <= entries.len(),
            model == members_view(entries@),
            typed_schemas(model.take(i as int)) == Some(members_view(list@)),
        decreases entries.len() - i,
    {
        proof {
            assert(model.take(i + 1).drop_last() =~= model.take(i as int));
            assert(model.take(i + 1).last() == model[i as int]);
        }
        match convert_v2_schema_to_v3(&entries[i].value) {
            Some(schema) => {
                push_member(&mut list, entries[i].key.as_str(), schema);
            },
            None => {
                proof {
                    lemma_schemas_fail(model, i + 1);
                }
                return None;
            },
        }
        i += 1;
    }
    assert(model.take(i as int) =~= model);
    Some(list)
}

// ---------------------------------------------------------------------------
// Parameters
// ---------------------------------------------------------------------------
/// The members that a canonical parameter begins with: its name and
/// location, and `required` where the legacy parameter is marked so.
pub open spec fn parameter_head(name: Seq<char>, place: Seq<char>, required: Option<bool>) -> Seq<
    (Seq<char>, Json),
> {
    let named = seq![("name"@, Json::String(name)), ("in"@, Json::String(place))];
    if required == Some(true) {
        named.push(("required"@, Json::Bool(true)))
    } else {
        named
    }
}

/// The canonical parameter of a legacy parameter: its name and location, its
/// required mark, and a schema of its type and format where it has any of
/// them. Nothing where the tree is no object, has no name or location, or a
/// member has not the type it must have.
pub open spec fn typed_parameter(tree: Json) -> Option<Json> {
    match (
        tree,
        tree.get_str("name"@),
        tree.get_str("in"@),
        optional_flag(tree, "required"@),
        optional_text(tree, "type"@),
        optional_text(tree, "format"@),
        typed_inner_schema(tree),
    ) {
        (
            Json::Object(_),
            Some(name),
            Some(place),
            Some(required),
            Some(kind),
            Some(format),
            Some(_),
        ) => {
            let head = parameter_head(name, place, required);
            let schema = put_some(
                put_some(Seq::empty(), "type"@, text_tree(kind)),
                "format"@,
                text_tree(format),
            );
            Some(
                Json::Object(
                    if schema.len() > 0 {
                        head.push(("schema"@, Json::Object(schema)))
                    } else {
                        head
                    },
                ),
            )
        },
        _ => None,
    }
}

/// Converts a legacy parameter that has the members and types it must have.
pub fn convert_v2_parameter_to_v3(param: &JsonValue) -> (out: Option<JsonValue>)
    ensures
        option_view(out) == typed_parameter(param@),
{
    match param {
        JsonValue::Object(_) => {},
        _ => {
            return None;
        },
    }
    let name = match param.get_str("name") {
        Some(found) => found,
        None => {
            return None;
        },
    };
    let place = match param.get_str("in") {
        Some(found) => found,
        None => {
            return None;
        },
    };
    let required = match read_flag(param, "required") {
        Some(found) => found,
        None => {
            return None;
        },
    };
    let kind = match read_text(param, "type") {
        Some(found) => found,
        None => {
            return None;
        },
    };
    let format = match read_text(param, "format") {
        Some(found) => found,
        None => {
            return None;
        },
    };
    match convert_inner_schema(param) {
        Some(_) => {},
        None => {
            return None;
        },
    }
    let mut members: Vec<Member> = Vec::new();
    assert(members_view(members@) =~= Seq::empty());
    push_member(&mut members, "name", JsonValue::string(name));
    push_member(&mut members, "in", JsonValue::string(place));
    assert(members_view(members@) =~= seq![
        ("name"@, Json::String(name@)),
        ("in"@, Json::String(place@)),
    ]);
    let marked = match required {
        Some(flag) => flag,
        None => false,
    };
    if marked {
        push_member(&mut members, "required", JsonValue::Bool(true));
    }
    let mut schema: Vec<Member> = Vec::new();
    assert(members_view(schema@) =~= Seq::empty());
    insert_some(&mut schema, "type", kind);
    insert_some(&mut schema, "format", format);
    assert(members_view(schema@).len() == schema.len());
    if schema.len() > 0 {
        push_member(&mut members, "schema", JsonValue::Object(schema));
    }
    Some(JsonValue::Object(members))
}

/// The canonical parameters of a legacy parameter list: every parameter but
/// those in the body location, converted. Nothing where an item, in the body
/// or not, has not the members and types it must have.
pub open spec fn typed_parameters(items: Seq<Json>) -> Option<Seq<Json>>
    decreases items.len(),
{
    if items.len() == 0 {
        Some(Seq::empty())
    } else {
        match (typed_parameters(items.drop_last()), typed_parameter(items.last())) {
            (Some(before), Some(parameter)) => if located(items.last(), "body"@) {
                Some(before)
            } else {
                Some(before.push(parameter))
            },
            _ => None,
        }
    }
}

proof fn lemma_parameters_fail(items: Seq<Json>, upto: int)
    requires
        0 <= upto <= items.len(),
        typed_parameters(items.take(upto)) is None,
    ensures
        typed_parameters(items) is None,
    decreases items.len() - upto,
{
    if upto < items.len() {
        assert(items.take(upto + 1).drop_last() =~= items.take(upto));
        lemma_parameters_fail(items, upto + 1);
    } else {
        assert(items.take(upto) =~= items);
    }
}

/// The request body of a legacy body parameter: its schema, converted, as
/// the content of `application/json`, and `required` where it is marked so.
pub open spec fn typed_body_request(body: Json) -> Option<Json> {
    match (typed_inner_schema(body), optional_flag(body, "required"@)) {
        (Some(schema), Some(required)) => {
            let content: Seq<(Seq<char>, Json)> = match schema {
                Some(converted) => seq![("content"@, json_content(converted))],
                None => Seq::empty(),
            };
            Some(
                Json::Object(
                    if required == Some(true) {
                        content.push(("required"@, Json::Bool(true)))
                    } else {
                        content
                    },
                ),
            )
        },
        _ => None,
    }
}

/// The converted parameters of a list and the last item in the body location.
fn convert_parameters(items: &Vec<JsonValue>) -> (out: Option<(Vec<JsonValue>, Option<usize>)>)
    ensures
        match out {
            Some((list, body)) => typed_parameters(items_view(items@)) == Some(items_view(list@))
                && match body {
                Some(at) => at < items.len() && body_parameter(items_view(items@)) == Some(
                    items@[at as int]@,
                ),
                None => body_parameter(items_view(items@)) is None,
            },
            None => typed_parameters(items_view(items@)) is None,
        },
{
    let ghost model = items_view(items@);
    let mut list: Vec<JsonValue> = Vec::new();
    let mut body: Option<usize> = None;
    let mut i: usize = 0;
    assert(items_view(list@) =~= Seq::empty());
    assert(model.take(0) =~= Seq::empty());
    while i < items.len()
        invariant
            i <= items.len(),
            model == items_view(items@),
            typed_parameters(model.take(i as int)) == Some(items_view(list@)),
            match body {
                Some(at) => at < i && body_parameter(model.take(i as int)) == Some(
                    items@[at as int]@,
                ),
                None => body_parameter(model.take(i as int)) is None,
            },
        decreases items.len() - i,
    {
        proof {
            assert(model.take(i + 1).drop_last() =~= model.take(i as int));
            assert(model.take(i + 1).last() == items@[i as int]@);
        }
        match convert_v2_parameter_to_v3(&items[i]) {
            Some(parameter) => {
                let in_body = match items[i].get_str("in") {
                    Some(place) => text_eq(place, "body"),
                    None => false,
                };
                if in_body {
                    body = Some(i);
                } else {
                    let ghost before = items_view(list@);
                    list.push(parameter);
                    assert(items_view(list@) =~= before.push(parameter@));
                }
            },
            None => {
                proof {
                    lemma_parameters_fail(model, i + 1);
                }
                return None;
            },
        }
        i += 1;
    }
    assert(model.take(i as int) =~= model);
    Some((list, body))
}

fn convert_body_request(body: &JsonValue) -> (out: Option<JsonValue>)
    ensures
        option_view(out) == typed_body_request(body@),
{
    let schema = match convert_inner_schema(body) {
        Some(found) => found,
        None => {
            return None;
        },
    };
    let required = match read_flag(body, "required") {
        Some(found) => found,
        None => {
            return None;
        },
    };
    let mut members: Vec<Member> = Vec::new();
    assert(members_view(members@) =~= Seq::empty());
    match schema {
        Some(converted) => {
            let media = JsonValue::single("schema", converted);
            push_member(&mut members, "content", JsonValue::single("application/json", media));
            assert(members_view(members@) =~= seq![("content"@, json_content(converted@))]);
        },
        None => {},
    }
    let marked = match required {
        Some(flag) => flag,
        None => false,
    };
    if marked {
        push_member(&mut members, "required", JsonValue::Bool(true));
    }
    Some(JsonValue::Object(members))
}

// ---------------------------------------------------------------------------
// Responses and operations
// ---------------------------------------------------------------------------
/// The canonical response of a legacy response: its description and, where
/// it has a schema, the schema as the content of `application/json`.
pub open spec fn typed_response(tree: Json) -> Option<Json> {
    match (tree, tree.get_str("description"@), typed_inner_schema(tree)) {
        (Json::Object(_), Some(description), Some(schema)) => {
            let described = seq![("description"@, Json::String(description))];
            Some(
                Json::Object(
                    match schema {
                        Some(converted) => described.push(("content"@, json_content(converted))),
                        None => described,
                    },
                ),
            )
        },
        _ => None,
    }
}

/// The canonical responses of a table of legacy responses, by status.
pub open spec fn typed_responses(entries: Seq<(Seq<char>, Json)>) -> Option<
    Seq<(Seq<char>, Json)>,
>
    decreases entries.len(),
{
    if entries.len() == 0 {
        Some(Seq::empty())
    } else {
        match (typed_responses(entries.drop_last()), typed_response(entries.last().1)) {
            (Some(before), Some(response)) => Some(before.push((entries.last().0, response))),
            _ => None,
        }
    }
}

proof fn lemma_responses_fail(entries: Seq<(Seq<char>, Json)>, upto: int)
    requires
        0 <= upto <= entries.len(),
        typed_responses(entries.take(upto)) is None,
    ensures
        typed_responses(entries) is None,
    decreases entries.len() - upto,
{
    if upto < entries.len() {
        assert(entries.take(upto + 1).drop_last() =~= entries.take(upto));
        lemma_responses_fail(entries, upto + 1);
    } else {
        assert(entries.take(upto) =~= entries);
    }
}

fn convert_response(tree: &JsonValue) -> (out: Option<JsonValue>)
    ensures
        option_view(out) == typed_response(tree@),
{
    match tree {
        JsonValue::Object(_) => {},
        _ => {
            return None;
        },
    }
    let description = match tree.get_str("description") {
        Some(found) => found,
        None => {
            return None;
        },
    };
    let schema = match convert_inner_schema(tree) {
        Some(found) => found,
        None => {
            return None;
        },
    };
    let mut members: Vec<Member> = Vec::new();
    assert(members_view(members@) =~= Seq::empty());
    push_member(&mut members, "description", JsonValue::string(description));
    assert(members_view(members@) =~= seq![("description"@, Json::String(description@))]);
    match schema {
        Some(converted) => {
            let media = JsonValue::single("schema", converted);
            push_member(&mut members, "content", JsonValue::single("application/json", media));
        },
        None => {},
    }
    Some(JsonValue::Object(members))
}

fn convert_responses(entries: &Vec<Member>) -> (out: Option<Vec<Member>>)
    ensures
        match out {
            Some(list) => typed_responses(members_view(entries@)) == Some(members_view(list@)),
            None => typed_responses(members_view(entries@)) is None,
        },
{
    let ghost model = members_view(entries@);
    let mut list: Vec<Member> = Vec::new();
    let mut i: usize = 0;
    assert(members_view(list@) =~= Seq::empty());
    assert(model.take(0) =~= Seq::empty());
    while i < entries.len()
        invariant
            i <= entries.len(),
            model == members_view(entries@),
            typed_responses(model.take(i as int)) == Some(members_view(list@)),
        decreases entries.len() - i,
    {
        proof {
            assert(model.take(i + 1).drop_last() =~= model.take(i as int));
            assert(model.take(i + 1).last() == model[i as int]);
        }
        match convert_response(&entries[i].value) {
            Some(response) => {
                push_member(&mut list, entries[i].key.as_str(), response);
            },
            None => {
                proof {
                    lemma_responses_fail(model, i + 1);
                }
                return None;
            },
        }
        i += 1;
    }
    assert(model.take(i as int) =~= model);
    Some(list)
}

/// What a legacy operation declares of parameters: the converted parameters
/// and the request body of its body parameter.
pub open spec fn typed_declared_parameters(tree: Json) -> Option<(Seq<Json>, Option<Json>)> {
    match tree.get("parameters"@) {
        None => Some((Seq::empty(), None)),
        Some(Json::Array(items)) => match typed_parameters(items) {
            Some(kept) => match body_parameter(items) {
                Some(body) => match typed_body_request(body) {
                    Some(request) => Some((kept, Some(request))),
                    None => None,
                },
                None => Some((kept, None)),
            },
            None => None,
        },
        Some(_) => None,
    }
}

/// What a legacy operation declares of responses, converted.
pub open spec fn typed_declared_responses(tree: Json) -> Option<Seq<(Seq<char>, Json)>> {
    match tree.get("responses"@) {
        None => Some(Seq::empty()),
        Some(Json::Object(entries)) => typed_responses(entries),
        Some(_) => None,
    }
}

/// The canonical operation of a legacy operation: its summary, description,
/// identifier and tags, its converted parameters where there are any, the
/// request body of its body parameter, and its converted responses.
pub open spec fn typed_operation(tree: Json) -> Option<Json> {
    match (
        tree,
        optional_text(tree, "summary"@),
        optional_text(tree, "description"@),
        optional_text(tree, "operationId"@),
        optional_texts(tree, "tags"@),
        typed_declared_parameters(tree),
        typed_declared_responses(tree),
    ) {
        (
            Json::Object(_),
            Some(summary),
            Some(description),
            Some(operation_id),
            Some(tags),
            Some(declared),
            Some(responses),
        ) => {
            let described = put_some(
                put_some(
                    put_some(
                        put_some(Seq::empty(), "summary"@, text_tree(summary)),
                        "description"@,
                        text_tree(description),
                    ),
                    "operationId"@,
                    text_tree(operation_id),
                ),
                "tags"@,
                tags,
            );
            let listed = if declared.0.len() > 0 {
                described.push(("parameters"@, Json::Array(declared.0)))
            } else {
                described
            };
            let bodied = match declared.1 {
                Some(request) => listed.push(("requestBody"@, request)),
                None => listed,
            };
            Some(Json::Object(bodied.push(("responses"@, Json::Object(responses)))))
        },
        _ => None,
    }
}

fn convert_declared_parameters(tree: &JsonValue) -> (out: Option<
    (Vec<JsonValue>, Option<JsonValue>),
>)
    ensures
        match out {
            Some((kept, request)) => typed_declared_parameters(tree@) == Some(
                (items_view(kept@), option_view(request)),
            ),
            None => typed_declared_parameters(tree@) is None,
        },
{
    match tree.get("parameters") {
        None => {
            let kept: Vec<JsonValue> = Vec::new();
            assert(items_view(kept@) =~= Seq::empty());
            Some((kept, None))
        },
        Some(JsonValue::Array(items)) => match convert_parameters(items) {
            Some((kept, body)) => match body {
                Some(at) => match convert_body_request(&items[at]) {
                    Some(request) => Some((kept, Some(request))),
                    None => None,
                },
                None => Some((kept, None)),
            },
            None => None,
        },
        Some(_) => None,
    }
}

/// Converts a legacy operation that has the members and types it must have.
pub fn convert_v2_operation_to_v3(op: &JsonValue) -> (out: Option<JsonValue>)
    ensures
        option_view(out) == typed_operation(op@),
{
    match op {
        JsonValue::Object(_) => {},
        _ => {
            return None;
        },
    }
    let summary = match read_text(op, "summary") {
        Some(found) => found,
        None => {
            return None;
        },
    };
    let description = match read_text(op, "description") {
        Some(found) => found,
        None => {
            return None;
        },
    };
    let operation_id = match read_text(op, "operationId") {
        Some(found) => found,
        None => {
            return None;
        },
    };
    let tags = match read_texts(op, "tags") {
        Some(found) => found,
        None => {
            return None;
        },
    };
    let (kept, request) = match convert_declared_parameters(op) {
        Some(found) => found,
        None => {
            return None;
        },
    };
    let responses = match op.get("responses") {
        None => {
            let list: Vec<Member> = Vec::new();
            assert(members_view(list@) =~= Seq::empty());
            Some(list)
        },
        Some(JsonValue::Object(entries)) => convert_responses(entries),
        Some(_) => None,
    };
    let responses = match responses {
        Some(found) => found,
        None => {
            return None;
        },
    };
    let mut members: Vec<Member> = Vec::new();
    assert(members_view(members@) =~= Seq::empty());
    insert_some(&mut members, "summary", summary);
    insert_some(&mut members, "description", description);
    insert_some(&mut members, "operationId", operation_id);
    insert_some(&mut members, "tags", tags);
    assert(items_view(kept@).len() == kept.len());
    if kept.len() > 0 {
        push_member(&mut members, "parameters", JsonValue::Array(kept));
    }
    match request {
        Some(body) => {
            push_member(&mut members, "requestBody", body);
        },
        None => {},
    }
    push_member(&mut members, "responses", JsonValue::Object(responses));
    Some(JsonValue::Object(members))
}

// ---------------------------------------------------------------------------
// Paths and the whole description
// ---------------------------------------------------------------------------
/// The members of a canonical path item after the operation that the legacy
/// item binds to a verb, if any, was converted and added.
pub open spec fn with_typed_operation(
    before: Option<Seq<(Seq<char>, Json)>>,
    item: Json,
    verb: Seq<char>,
) -> Option<Seq<(Seq<char>, Json)>> {
    match (before, item.get(verb)) {
        (Some(members), None) => Some(members),
        (Some(members), Some(operation)) => match typed_operation(operation) {
            Some(converted) => Some(members.push((verb, converted))),
            None => None,
        },
        (None, _) => None,
    }
}

/// The keys of the operations of a path item, in the order in which the
/// converted item holds them.
pub open spec fn typed_verbs() -> Seq<Seq<char>> {
    seq!["get"@, "post"@, "put"@, "patch"@, "delete"@, "options"@, "head"@, "trace"@]
}

/// The members of a canonical path item after the operations that the
/// legacy item binds to the first `count` verbs were converted and added.
pub open spec fn typed_operations(item: Json, count: nat) -> Option<Seq<(Seq<char>, Json)>>
    decreases count,
{
    if count == 0 || count > typed_verbs().len() {
        Some(Seq::empty())
    } else {
        with_typed_operation(
            typed_operations(item, (count - 1) as nat),
            item,
            typed_verbs()[count - 1],
        )
    }
}

/// The canonical path item of a legacy path item: the operations that it
/// binds to the eight verbs, each converted.
pub open spec fn typed_path_item(tree: Json) -> Option<Json> {
    match tree {
        Json::Object(_) => match typed_operations(tree, typed_verbs().len()) {
            Some(members) => Some(Json::Object(members)),
            None => None,
        },
        _ => None,
    }
}

/// The canonical path items of a legacy path table, under their templates.
pub open spec fn typed_paths(entries: Seq<(Seq<char>, Json)>) -> Option<Seq<(Seq<char>, Json)>>
    decreases entries.len(),
{
    if entries.len() == 0 {
        Some(Seq::empty())
    } else {
        match (typed_paths(entries.drop_last()), typed_path_item(entries.last().1)) {
            (Some(before), Some(item)) => Some(before.push((entries.last().0, item))),
            _ => None,
        }
    }
}

proof fn lemma_paths_fail(entries: Seq<(Seq<char>, Json)>, upto: int)
    requires
        0 <= upto <= entries.len(),
        typed_paths(entries.take(upto)) is None,
    ensures
        typed_paths(entries) is None,
    decreases entries.len() - upto,
{
    if upto < entries.len() {
        assert(entries.take(upto + 1).drop_last() =~= entries.take(upto));
        lemma_paths_fail(entries, upto + 1);
    } else {
        assert(entries.take(upto) =~= entries);
    }
}

fn add_operation(members: Option<Vec<Member>>, item: &JsonValue, verb: &str) -> (out: Option<
    Vec<Member>,
>)
    ensures
        match out {
            Some(list) => with_typed_operation(
                match members {
                    Some(before) => Some(members_view(before@)),
                    None => None,
                },
                item@,
                verb@,
            ) == Some(members_view(list@)),
            None => with_typed_operation(
                match members {
                    Some(before) => Some(members_view(before@)),
                    None => None,
                },
                item@,
                verb@,
            ) is None,
        },
{
    match members {
        Some(list) => {
            let mut list = list;
            match item.get(verb) {
                None => Some(list),
                Some(operation) => match convert_v2_operation_to_v3(operation) {
                    Some(converted) => {
                        push_member(&mut list, verb, converted);
                        Some(list)
                    },
                    None => None,
                },
            }
        },
        None => None,
    }
}

fn convert_path_item(tree: &JsonValue) -> (out: Option<JsonValue>)
    ensures
        option_view(out) == typed_path_item(tree@),
{
    match tree {
        JsonValue::Object(_) => {},
        _ => {
            return None;
        },
    }
    let start: Vec<Member> = Vec::new();
    assert(members_view(start@) =~= Seq::empty());
    assert(typed_verbs().len() == 8);
    reveal_with_fuel(typed_operations, 9);
    let a = add_operation(Some(start), tree, "get");
    let b = add_operation(a, tree, "post");
    let c = add_operation(b, tree, "put");
    let d = add_operation(c, tree, "patch");
    let e = add_operation(d, tree, "delete");
    let f = add_operation(e, tree, "options");
    let g = add_operation(f, tree, "head");
    let h = add_operation(g, tree, "trace");
    match h {
        Some(members) => Some(JsonValue::Object(members)),
        None => None,
    }
}

fn convert_paths(entries: &Vec<Member>) -> (out: Option<Vec<Member>>)
    ensures
        match out {
            Some(list) => typed_paths(members_view(entries@)) == Some(members_view(list@)),
            None => typed_paths(members_view(entries@)) is None,
        },
{
    let ghost model = members_view(entries@);
    let mut list: Vec<Member> = Vec::new();
    let mut i: usize = 0;
    assert(members_view(list@) =~= Seq::empty());
    assert(model.take(0) =~= Seq::empty());
    while i < entries.len()
        invariant
            i <= entries.len(),
            model == members_view(entries@),
            typed_paths(model.take(i as int)) == Some(members_view(list@)),
        decreases entries.len() - i,
    {
        proof {
            assert(model.take(i + 1).drop_last() =~= model.take(i as int));
            assert(model.take(i + 1).last() == model[i as int]);
        }
        match convert_path_item(&entries[i].value) {
            Some(item) => {
                push_member(&mut list, entries[i].key.as_str(), item);
            },
            None => {
                proof {
                    lemma_paths_fail(model, i + 1);
                }
                return None;
            },
        }
        i += 1;
    }
    assert(model.take(i as int) =~= model);
    Some(list)
}

/// The `info` of a canonical description: the title and version of the
/// legacy description and, where it has them, its terms of service.
pub open spec fn typed_info(tree: Json) -> Option<Json> {
    match tree.get("info"@) {
        Some(info) => match (
            info,
            info.get_str("title"@),
            info.get_str("version"@),
            optional_text(info, "termsOfService"@),
        ) {
            (Json::Object(_), Some(title), Some(version), Some(terms)) => {
                let named = seq![
                    ("title"@, Json::String(title)),
                    ("version"@, Json::String(version)),
                ];
                Some(
                    Json::Object(
                        match terms {
                            Some(text) => named.push(("termsOfService"@, Json::String(text))),
                            None => named,
                        },
                    ),
                )
            },
            _ => None,
        },
        None => None,
    }
}

/// The table under a key that may be missing: its members, none where it is
/// missing, and nothing where it is no object.
pub open spec fn optional_table(tree: Json, key: Seq<char>) -> Option<Seq<(Seq<char>, Json)>> {
    match tree.get(key) {
        None => Some(Seq::empty()),
        Some(Json::Object(entries)) => Some(entries),
        Some(_) => None,
    }
}

/// The canonical schemas of the definitions of a legacy description.
pub open spec fn typed_definitions(tree: Json) -> Option<Seq<(Seq<char>, Json)>> {
    match optional_table(tree, "definitions"@) {
        Some(entries) => typed_schemas(entries),
        None => None,
    }
}

/// The canonical path table of a legacy description.
pub open spec fn typed_path_table(tree: Json) -> Option<Seq<(Seq<char>, Json)>> {
    match optional_table(tree, "paths"@) {
        Some(entries) => typed_paths(entries),
        None => None,
    }
}

/// The canonical description of a legacy description, built afresh: the
/// version marker, the info, the server computed from schemes, host and base
/// path, the converted path table, and the converted definitions as the
/// schemas of the components.
pub open spec fn typed_spec(tree: Json) -> Option<Json> {
    match (
        tree,
        typed_info(tree),
        optional_texts(tree, "schemes"@),
        optional_text(tree, "host"@),
        optional_text(tree, "basePath"@),
        typed_definitions(tree),
        typed_path_table(tree),
    ) {
        (
            Json::Object(_),
            Some(info),
            Some(schemes),
            Some(host),
            Some(base_path),
            Some(schemas),
            Some(paths),
        ) => Some(
            Json::Object(
                seq![
                    ("openapi"@, Json::String("3.0.0"@)),
                    ("info"@, info),
                    (
                        "servers"@,
                        server_list(server_url(schemes, text_tree(host), text_tree(base_path))),
                    ),
                    ("paths"@, Json::Object(paths)),
                    ("components"@, one("schemas"@, Json::Object(schemas))),
                ],
            ),
        ),
        _ => None,
    }
}

/// The canonical description of a legacy description, built afresh, or the
/// error that says that it has not the structure of one.
pub open spec fn rebuilt_tree(tree: Json) -> Result<Json, ErrorView> {
    match typed_spec(tree) {
        Some(rebuilt) => Ok(rebuilt),
        None => Err(ErrorView::InvalidSpecification),
    }
}

fn convert_info(tree: &JsonValue) -> (out: Option<JsonValue>)
    ensures
        option_view(out) == typed_info(tree@),
{
    let info = match tree.get("info") {
        Some(found) => found,
        None => {
            return None;
        },
    };
    match info {
        JsonValue::Object(_) => {},
        _ => {
            return None;
        },
    }
    let title = match info.get_str("title") {
        Some(found) => found,
        None => {
            return None;
        },
    };
    let version = match info.get_str("version") {
        Some(found) => found,
        None => {
            return None;
        },
    };
    let terms = match read_text(info, "termsOfService") {
        Some(found) => found,
        None => {
            return None;
        },
    };
    let mut members: Vec<Member> = Vec::new();
    assert(members_view(members@) =~= Seq::empty());
    push_member(&mut members, "title", JsonValue::string(title));
    push_member(&mut members, "version", JsonValue::string(version));
    assert(members_view(members@) =~= seq![
        ("title"@, Json::String(title@)),
        ("version"@, Json::String(version@)),
    ]);
    match terms {
        Some(text) => {
            push_member(&mut members, "termsOfService", text);
        },
        None => {},
    }
    Some(JsonValue::Object(members))
}

/// Builds the canonical description of a legacy description afresh from the
/// members that it must have.
pub fn convert_v2_spec_to_v3(v2: &JsonValue) -> (out: Result<JsonValue, CurlGeneratorError>)
    ensures
        match out {
            Ok(tree) => rebuilt_tree(v2@) == Ok::<Json, ErrorView>(tree@)
                && free_of_legacy_references(tree@),
            Err(error) => rebuilt_tree(v2@) == Err::<Json, ErrorView>(error@),
        },
{
    proof {
        if typed_spec(v2@) is Some {
            lemma_rebuilt_is_free(v2@);
        }
    }
    match v2 {
        JsonValue::Object(_) => {},
        _ => {
            return Err(CurlGeneratorError::InvalidSpecification);
        },
    }
    let info = match convert_info(v2) {
        Some(found) => found,
        None => {
            return Err(CurlGeneratorError::InvalidSpecification);
        },
    };
    let schemes = match read_texts(v2, "schemes") {
        Some(found) => found,
        None => {
            return Err(CurlGeneratorError::InvalidSpecification);
        },
    };
    let host = match read_text(v2, "host") {
        Some(found) => found,
        None => {
            return Err(CurlGeneratorError::InvalidSpecification);
        },
    };
    let base_path = match read_text(v2, "basePath") {
        Some(found) => found,
        None => {
            return Err(CurlGeneratorError::InvalidSpecification);
        },
    };
    let schemas = match v2.get("definitions") {
        None => {
            let list: Vec<Member> = Vec::new();
            assert(members_view(list@) =~= Seq::empty());
            Some(list)
        },
        Some(JsonValue::Object(entries)) => convert_schemas(entries),
        Some(_) => None,
    };
    let schemas = match schemas {
        Some(found) => found,
        None => {
            return Err(CurlGeneratorError::InvalidSpecification);
        },
    };
    let paths = match v2.get("paths") {
        None => {
            let list: Vec<Member> = Vec::new();
            assert(members_view(list@) =~= Seq::empty());
            Some(list)
        },
        Some(JsonValue::Object(entries)) => convert_paths(entries),
        Some(_) => None,
    };
    let paths = match paths {
        Some(found) => found,
        None => {
            return Err(CurlGeneratorError::InvalidSpecification);
        },
    };
    let url = make_server_url(&schemes, &host, &base_path);
    let mut servers: Vec<JsonValue> = Vec::new();
    servers.push(JsonValue::single("url", JsonValue::String(url)));
    assert(items_view(servers@) =~= seq![one("url"@, Json::String(url@))]);
    let mut members: Vec<Member> = Vec::new();
    assert(members_view(members@) =~= Seq::empty());
    push_member(&mut members, "openapi", JsonValue::string("3.0.0"));
    push_member(&mut members, "info", info);
    push_member(&mut members, "servers", JsonValue::Array(servers));
    push_member(&mut members, "paths", JsonValue::Object(paths));
    push_member(&mut members, "components", JsonValue::single("schemas", JsonValue::Object(schemas)));
    assert(members_view(members@) =~= seq![
        ("openapi"@, Json::String("3.0.0"@)),
        ("info"@, info@),
        ("servers"@, server_list(url@)),
        ("paths"@, Json::Object(members_view(paths@))),
        ("components"@, one("schemas"@, Json::Object(members_view(schemas@)))),
    ]);
    Ok(JsonValue::Object(members))
}

// ---------------------------------------------------------------------------
// What the fresh description guarantees
// ---------------------------------------------------------------------------
/// A text under a key that is not `$ref` is no reference.
proof fn lemma_free_text(members: Seq<(Seq<char>, Json)>, key: Seq<char>, text: Option<Seq<char>>)
    requires
        free_members(members),
        key.len() > 0,
        key[0] != '$',
    ensures
        free_members(put_some(members, key, text_tree(text))),
{
    lemma_plain_key(key);
    match text {
        Some(t) => {
            lemma_free_put(members, key, Json::String(t));
        },
        None => {},
    }
}

/// A list of texts holds no reference.
proof fn lemma_free_texts(members: Seq<(Seq<char>, Json)>, key: Seq<char>, texts: Option<Json>)
    requires
        free_members(members),
        match texts {
            Some(Json::Array(items)) => all_texts(items),
            Some(_) => false,
            None => true,
        },
    ensures
        free_members(put_some(members, key, texts)),
{
    match texts {
        Some(Json::Array(items)) => {
            lemma_free_array(items);
            lemma_free_put(members, key, Json::Array(items));
        },
        _ => {},
    }
}

/// The content of a body or response holds no reference where its schema
/// holds none.
proof fn lemma_free_content(schema: Json)
    requires
        free_of_legacy_references(schema),
        schema is Object,
    ensures
        free_of_legacy_references(json_content(schema)),
        json_content(schema) is Object,
{
    let inner = seq![("schema"@, schema)];
    assert(free_members(inner));
    lemma_free_object(inner);
    let outer = seq![("application/json"@, one("schema"@, schema))];
    assert(free_members(outer));
    lemma_free_object(outer);
}

/// A converted schema is an object without references to the legacy
/// definitions.
pub proof fn lemma_typed_schema_free(tree: Json)
    requires
        typed_schema(tree) is Some,
    ensures
        typed_schema(tree)->0 is Object,
        free_of_legacy_references(typed_schema(tree)->0),
{
    reveal_strlit("type");
    reveal_strlit("format");
    reveal_strlit("description");
    let reference = optional_text(tree, "$ref"@)->0;
    let kind = optional_text(tree, "type"@)->0;
    let format = optional_text(tree, "format"@)->0;
    let description = optional_text(tree, "description"@)->0;
    let values = optional_texts(tree, "enum"@)->0;
    match reference {
        Some(target) => {
            lemma_repointed_never_legacy(target);
            let members = seq![
                ("$ref"@, Json::String(repointed(target))),
            ];
            assert(free_members(members));
            lemma_free_object(members);
        },
        None => {
            let m0 = Seq::<(Seq<char>, Json)>::empty();
            assert(free_members(m0));
            lemma_free_text(m0, "type"@, kind);
            let m1 = put_some(m0, "type"@, text_tree(kind));
            lemma_free_text(m1, "format"@, format);
            let m2 = put_some(m1, "format"@, text_tree(format));
            lemma_free_text(m2, "description"@, description);
            let m3 = put_some(m2, "description"@, text_tree(description));
            lemma_free_texts(m3, "enum"@, values);
            lemma_free_object(put_some(m3, "enum"@, values));
        },
    }
}

/// Converted schemas under their names hold no reference to the legacy
/// definitions.
pub proof fn lemma_typed_schemas_free(entries: Seq<(Seq<char>, Json)>)
    requires
        typed_schemas(entries) is Some,
    ensures
        free_members(typed_schemas(entries)->0),
    decreases entries.len(),
{
    if entries.len() > 0 {
        lemma_typed_schemas_free(entries.drop_last());
        lemma_typed_schema_free(entries.last().1);
        lemma_free_put(
            typed_schemas(entries.drop_last())->0,
            entries.last().0,
            typed_schema(entries.last().1)->0,
        );
    }
}

/// The converted schema under `schema`, where there is one, is an object
/// without references to the legacy definitions.
proof fn lemma_typed_inner_schema_free(tree: Json)
    requires
        typed_inner_schema(tree) is Some,
    ensures
        typed_inner_schema(tree)->0 is Some ==> typed_inner_schema(tree)->0->0 is Object
            && free_of_legacy_references(typed_inner_schema(tree)->0->0),
{
    match tree.get("schema"@) {
        Some(schema) => {
            lemma_typed_schema_free(schema);
        },
        None => {},
    }
}

/// A converted parameter holds no reference to the legacy definitions.
pub proof fn lemma_typed_parameter_free(tree: Json)
    requires
        typed_parameter(tree) is Some,
    ensures
        typed_parameter(tree)->0 is Object,
        free_of_legacy_references(typed_parameter(tree)->0),
{
    reveal_strlit("name");
    reveal_strlit("in");
    reveal_strlit("type");
    reveal_strlit("format");
    let name = tree.get_str("name"@)->0;
    let place = tree.get_str("in"@)->0;
    let required = optional_flag(tree, "required"@)->0;
    let kind = optional_text(tree, "type"@)->0;
    let format = optional_text(tree, "format"@)->0;
    lemma_plain_key("name"@);
    lemma_plain_key("in"@);
    let named = seq![("name"@, Json::String(name)), ("in"@, Json::String(place))];
    assert(free_members(named));
    lemma_free_put(named, "required"@, Json::Bool(true));
    let head = parameter_head(name, place, required);
    assert(free_members(head));
    let m0 = Seq::<(Seq<char>, Json)>::empty();
    assert(free_members(m0));
    lemma_free_text(m0, "type"@, kind);
    let m1 = put_some(m0, "type"@, text_tree(kind));
    lemma_free_text(m1, "format"@, format);
    let schema = put_some(m1, "format"@, text_tree(format));
    lemma_free_object(schema);
    lemma_free_put(head, "schema"@, Json::Object(schema));
    lemma_free_object(head);
    lemma_free_object(head.push(("schema"@, Json::Object(schema))));
}

/// Converted parameters hold no reference to the legacy definitions.
pub proof fn lemma_typed_parameters_free(items: Seq<Json>)
    requires
        typed_parameters(items) is Some,
    ensures
        free_of_legacy_references(Json::Array(typed_parameters(items)->0)),
    decreases items.len(),
{
    let kept = typed_parameters(items)->0;
    lemma_free_array(kept);
    if items.len() > 0 {
        let before = typed_parameters(items.drop_last())->0;
        lemma_typed_parameters_free(items.drop_last());
        lemma_free_array(before);
        lemma_typed_parameter_free(items.last());
        assert forall|i: int| 0 <= i < kept.len() implies free_of_legacy_references(
            #[trigger] kept[i],
        ) by {
            if i < before.len() {
                assert(kept[i] == before[i]);
            }
        }
    }
}

/// The request body of a body parameter holds no reference to the legacy
/// definitions.
proof fn lemma_typed_body_request_free(body: Json)
    requires
        typed_body_request(body) is Some,
    ensures
        free_of_legacy_references(typed_body_request(body)->0),
{
    lemma_typed_inner_schema_free(body);
    let schema = typed_inner_schema(body)->0;
    let content: Seq<(Seq<char>, Json)> = match schema {
        Some(converted) => seq![("content"@, json_content(converted))],
        None => Seq::empty(),
    };
    match schema {
        Some(converted) => {
            lemma_free_content(converted);
        },
        None => {},
    }
    assert(free_members(content));
    lemma_free_put(content, "required"@, Json::Bool(true));
    lemma_free_object(content);
    lemma_free_object(content.push(("required"@, Json::Bool(true))));
}

/// A converted response is an object without references to the legacy
/// definitions.
proof fn lemma_typed_response_free(tree: Json)
    requires
        typed_response(tree) is Some,
    ensures
        typed_response(tree)->0 is Object,
        free_of_legacy_references(typed_response(tree)->0),
{
    reveal_strlit("description");
    lemma_plain_key("description"@);
    lemma_typed_inner_schema_free(tree);
    let described = seq![("description"@, Json::String(tree.get_str("description"@)->0))];
    assert(free_members(described));
    lemma_free_object(described);
    match typed_inner_schema(tree)->0 {
        Some(converted) => {
            lemma_free_content(converted);
            lemma_free_put(described, "content"@, json_content(converted));
            lemma_free_object(described.push(("content"@, json_content(converted))));
        },
        None => {},
    }
}

/// Converted responses under their status hold no reference to the legacy
/// definitions.
proof fn lemma_typed_responses_free(entries: Seq<(Seq<char>, Json)>)
    requires
        typed_responses(entries) is Some,
    ensures
        free_members(typed_responses(entries)->0),
    decreases entries.len(),
{
    if entries.len() > 0 {
        lemma_typed_responses_free(entries.drop_last());
        lemma_typed_response_free(entries.last().1);
        lemma_free_put(
            typed_responses(entries.drop_last())->0,
            entries.last().0,
            typed_response(entries.last().1)->0,
        );
    }
}

/// A converted operation is an object without references to the legacy
/// definitions.
pub proof fn lemma_typed_operation_free(tree: Json)
    requires
        typed_operation(tree) is Some,
    ensures
        typed_operation(tree)->0 is Object,
        free_of_legacy_references(typed_operation(tree)->0),
{
    reveal_strlit("summary");
    reveal_strlit("description");
    reveal_strlit("operationId");
    let summary = optional_text(tree, "summary"@)->0;
    let description = optional_text(tree, "description"@)->0;
    let operation_id = optional_text(tree, "operationId"@)->0;
    let tags = optional_texts(tree, "tags"@)->0;
    let declared = typed_declared_parameters(tree)->0;
    let responses = typed_declared_responses(tree)->0;
    let m0 = Seq::<(Seq<char>, Json)>::empty();
    assert(free_members(m0));
    lemma_free_text(m0, "summary"@, summary);
    let m1 = put_some(m0, "summary"@, text_tree(summary));
    lemma_free_text(m1, "description"@, description);
    let m2 = put_some(m1, "description"@, text_tree(description));
    lemma_free_text(m2, "operationId"@, operation_id);
    let m3 = put_some(m2, "operationId"@, text_tree(operation_id));
    lemma_free_texts(m3, "tags"@, tags);
    let described = put_some(m3, "tags"@, tags);
    match tree.get("parameters"@) {
        Some(Json::Array(items)) => {
            lemma_typed_parameters_free(items);
            match body_parameter(items) {
                Some(body) => {
                    lemma_typed_body_request_free(body);
                },
                None => {},
            }
        },
        _ => {
            lemma_free_array(Seq::empty());
        },
    }
    lemma_free_put(described, "parameters"@, Json::Array(declared.0));
    let listed = if declared.0.len() > 0 {
        described.push(("parameters"@, Json::Array(declared.0)))
    } else {
        described
    };
    let bodied = match declared.1 {
        Some(request) => {
            lemma_free_put(listed, "requestBody"@, request);
            listed.push(("requestBody"@, request))
        },
        None => listed,
    };
    match tree.get("responses"@) {
        Some(Json::Object(entries)) => {
            lemma_typed_responses_free(entries);
        },
        _ => {},
    }
    lemma_free_object(responses);
    lemma_free_put(bodied, "responses"@, Json::Object(responses));
    lemma_free_object(bodied.push(("responses"@, Json::Object(responses))));
}

/// The members of a converted path item hold no reference to the legacy
/// definitions after one more operation was converted and added.
proof fn lemma_with_typed_operation_free(
    before: Option<Seq<(Seq<char>, Json)>>,
    item: Json,
    verb: Seq<char>,
)
    requires
        before is Some ==> free_members(before->0),
        with_typed_operation(before, item, verb) is Some,
    ensures
        free_members(with_typed_operation(before, item, verb)->0),
{
    match item.get(verb) {
        Some(operation) => {
            lemma_typed_operation_free(operation);
            lemma_free_put(before->0, verb, typed_operation(operation)->0);
        },
        None => {},
    }
}

/// A converted path item is an object without references to the legacy
/// definitions.
proof fn lemma_typed_path_item_free(tree: Json)
    requires
        typed_path_item(tree) is Some,
    ensures
        typed_path_item(tree)->0 is Object,
        free_of_legacy_references(typed_path_item(tree)->0),
{
    lemma_typed_operations_free(tree, typed_verbs().len());
    lemma_free_object(typed_operations(tree, typed_verbs().len())->0);
}

/// The keys of the eight verbs differ from one another.
pub proof fn lemma_typed_verbs_differ()
    ensures
        typed_verbs().len() == 8,
        forall|i: int, j: int|
            0 <= i < 8 && 0 <= j < 8 && i != j ==> #[trigger] typed_verbs()[i]
                != #[trigger] typed_verbs()[j],
{
    reveal_strlit("get");
    reveal_strlit("post");
    reveal_strlit("put");
    reveal_strlit("patch");
    reveal_strlit("delete");
    reveal_strlit("options");
    reveal_strlit("head");
    reveal_strlit("trace");
    let verbs = typed_verbs();
    assert(verbs[0].len() == 3 && verbs[1].len() == 4 && verbs[2].len() == 3 && verbs[3].len()
        == 5);
    assert(verbs[4].len() == 6 && verbs[5].len() == 7 && verbs[6].len() == 4 && verbs[7].len()
        == 5);
    assert(verbs[0][0] == 'g' && verbs[2][0] == 'p');
    assert(verbs[1][0] == 'p' && verbs[6][0] == 'h');
    assert(verbs[3][0] == 'p' && verbs[7][0] == 't');
    assert forall|i: int, j: int| 0 <= i < 8 && 0 <= j < 8 && i != j implies #[trigger] verbs[i]
        != #[trigger] verbs[j] by {
        if verbs[i].len() == verbs[j].len() {
            lemma_differ_at(verbs[i], verbs[j], 0);
        } else {
            lemma_lengths_differ(verbs[i], verbs[j]);
        }
    }
}

/// The operation that a legacy path item binds to a verb, converted.
pub open spec fn typed_bound(item: Json, verb: Seq<char>) -> Option<Json> {
    match item.get(verb) {
        Some(operation) => typed_operation(operation),
        None => None,
    }
}

/// After the operations of the first `count` verbs were converted and
/// added, the members hold under each of these verbs its operation,
/// converted, and nothing under the later verbs.
proof fn lemma_typed_operations_get(item: Json, count: nat, at: int)
    requires
        typed_operations(item, count) is Some,
        count <= 8,
        0 <= at < 8,
    ensures
        get(typed_operations(item, count)->0, typed_verbs()[at]) == if at < count {
            typed_bound(item, typed_verbs()[at])
        } else {
            None
        },
        at < count && item.get(typed_verbs()[at]) is Some ==> typed_bound(
            item,
            typed_verbs()[at],
        ) is Some,
    decreases count,
{
    lemma_typed_verbs_differ();
    let key = typed_verbs()[at];
    if count == 0 {
        lemma_position(Seq::empty(), key);
    } else {
        let verb = typed_verbs()[count - 1];
        let before = typed_operations(item, (count - 1) as nat);
        lemma_typed_operations_get(item, (count - 1) as nat, at);
        lemma_typed_operations_get(item, (count - 1) as nat, count - 1);
        match item.get(verb) {
            Some(operation) => {
                let converted = typed_operation(operation)->0;
                lemma_position(before->0, verb);
                assert(put(before->0, verb, converted) == before->0.push((verb, converted)));
                lemma_get_put(before->0, verb, converted, key);
            },
            None => {},
        }
    }
}

/// The typed conversion drops no operation: the converted path item holds
/// under each of the eight verbs the operation that the legacy item binds
/// to it, converted, and nothing where the legacy item binds none.
pub proof fn law_typed_item_keeps_operations(item: Json, at: int)
    requires
        typed_path_item(item) is Some,
        0 <= at < 8,
    ensures
        typed_path_item(item)->0.get(typed_verbs()[at]) == typed_bound(item, typed_verbs()[at]),
        item.get(typed_verbs()[at]) is Some ==> typed_path_item(item)->0.get(typed_verbs()[at])
            is Some,
{
    lemma_typed_verbs_differ();
    lemma_typed_operations_get(item, 8, at);
}

/// The converted operations of a path item hold no reference to the legacy
/// definitions.
proof fn lemma_typed_operations_free(item: Json, count: nat)
    requires
        typed_operations(item, count) is Some,
    ensures
        free_members(typed_operations(item, count)->0),
    decreases count,
{
    if count == 0 || count > typed_verbs().len() {
        assert(free_members(Seq::<(Seq<char>, Json)>::empty()));
    } else {
        let before = typed_operations(item, (count - 1) as nat);
        lemma_typed_operations_free(item, (count - 1) as nat);
        lemma_with_typed_operation_free(before, item, typed_verbs()[count - 1]);
    }
}

/// Converted path items under their templates hold no reference to the
/// legacy definitions.
proof fn lemma_typed_paths_free(entries: Seq<(Seq<char>, Json)>)
    requires
        typed_paths(entries) is Some,
    ensures
        free_members(typed_paths(entries)->0),
    decreases entries.len(),
{
    if entries.len() > 0 {
        lemma_typed_paths_free(entries.drop_last());
        lemma_typed_path_item_free(entries.last().1);
        lemma_free_put(
            typed_paths(entries.drop_last())->0,
            entries.last().0,
            typed_path_item(entries.last().1)->0,
        );
    }
}

/// The fresh description of a legacy description holds no reference to the
/// legacy definitions, at any depth.
pub proof fn lemma_rebuilt_is_free(tree: Json)
    requires
        typed_spec(tree) is Some,
    ensures
        free_of_legacy_references(typed_spec(tree)->0),
{
    reveal_strlit("openapi");
    reveal_strlit("title");
    reveal_strlit("version");
    reveal_strlit("termsOfService");
    reveal_strlit("url");
    lemma_plain_key("openapi"@);
    lemma_plain_key("title"@);
    lemma_plain_key("version"@);
    lemma_plain_key("termsOfService"@);
    lemma_plain_key("url"@);
    let info_tree = tree.get("info"@)->0;
    let named = seq![
        ("title"@, Json::String(info_tree.get_str("title"@)->0)),
        ("version"@, Json::String(info_tree.get_str("version"@)->0)),
    ];
    assert(free_members(named));
    lemma_free_object(named);
    match optional_text(info_tree, "termsOfService"@)->0 {
        Some(text) => {
            lemma_free_put(named, "termsOfService"@, Json::String(text));
            lemma_free_object(named.push(("termsOfService"@, Json::String(text))));
        },
        None => {},
    }
    let info = typed_info(tree)->0;
    assert(free_of_legacy_references(info));
    let url = server_url(
        optional_texts(tree, "schemes"@)->0,
        text_tree(optional_text(tree, "host"@)->0),
        text_tree(optional_text(tree, "basePath"@)->0),
    );
    let server = seq![("url"@, Json::String(url))];
    assert(free_members(server));
    lemma_free_object(server);
    let servers = seq![one("url"@, Json::String(url))];
    lemma_free_array(servers);
    assert(free_of_legacy_references(server_list(url)));
    let schemas = typed_definitions(tree)->0;
    match tree.get("definitions"@) {
        Some(Json::Object(entries)) => {
            lemma_typed_schemas_free(entries);
        },
        _ => {},
    }
    lemma_free_object(schemas);
    let components = seq![("schemas"@, Json::Object(schemas))];
    assert(free_members(components));
    lemma_free_object(components);
    let paths = typed_path_table(tree)->0;
    match tree.get("paths"@) {
        Some(Json::Object(entries)) => {
            lemma_typed_paths_free(entries);
        },
        _ => {},
    }
    lemma_free_object(paths);
    let root = seq![
        ("openapi"@, Json::String("3.0.0"@)),
        ("info"@, info),
        ("servers"@, server_list(url)),
        ("paths"@, Json::Object(paths)),
        ("components"@, one("schemas"@, Json::Object(schemas))),
    ];
    assert(free_members(root));
    lemma_free_object(root);
}

} // verus!
