//! What the conversion of a legacy description guarantees of the whole
//! description: every operation stays where it was, what conversion
//! guarantees of one operation holds of it there, and no reference in the
//! document that comes out points at the legacy definitions.

use crate::convert::{
    any_form, body_parameter, converted_member, converted_operation, converted_parameter,
    converted_path_item, converted_paths, converted_shared, form_required, form_schema,
    free_members, free_of_legacy_references, law_body_parameter_becomes_request_body,
    law_form_parameters_list_required_names, legacy_prefix, legacy_reference,
    lemma_free_array, lemma_free_object, lemma_rewritten_keeps_kind, lemma_upgraded_is_free,
    located, moved_to_components, request_schema, required_form, required_list, rewritten,
    rewritten_items, rewritten_members, server_list, server_url, upgraded, upgraded_tree,
    with_components, with_converted_paths, with_servers,
};
use crate::decode::{
    bound_operation, declared_schema, document_of, is_template, is_reference, items_of,
    media_types_of, operation_of, parameters_of, path_item_of, paths_of, properties_of,
    schema_of, schemas_in,
};
use crate::document::{DocumentView, OperationView, PathItemView, SchemaView, Verb};
use crate::json::{
    del, distinct_keys, get, lemma_get_del, lemma_get_put, lemma_position,
    lemma_position_at, lemma_position_none, position, put, Json,
};
use crate::legacy::{lemma_rebuilt_is_free, typed_spec};
use crate::openapi::{converted_reading, legacy_reading};
use crate::text::{lemma_differ_at, lemma_lengths_differ, starts_with};
use vstd::prelude::*;

verus! {

/// The operation that a description binds to a verb at a path.
pub open spec fn operation_at(root: Seq<(Seq<char>, Json)>, path: Seq<char>, verb: Seq<char>) -> Option<
    Json,
> {
    match get(root, "paths"@) {
        Some(paths) => match paths.get(path) {
            Some(item) => item.get(verb),
            None => None,
        },
        None => None,
    }
}

/// A tree with its references rewritten, where there is a tree.
pub open spec fn rewritten_option(tree: Option<Json>) -> Option<Json> {
    match tree {
        Some(found) => Some(rewritten(found)),
        None => None,
    }
}

/// Members with the same keys in the same places are found at the same
/// places.
proof fn lemma_same_keys(
    members: Seq<(Seq<char>, Json)>,
    others: Seq<(Seq<char>, Json)>,
    key: Seq<char>,
)
    requires
        members.len() == others.len(),
        forall|i: int| 0 <= i < members.len() ==> members[i].0 == others[i].0,
    ensures
        position(members, key) == position(others, key),
{
    lemma_position(members, key);
    match position(members, key) {
        Some(at) => {
            lemma_position_at(others, key, at);
        },
        None => {
            lemma_position_none(others, key);
        },
    }
}

/// Under a key that held no reference to the legacy definitions, a rewritten
/// tree stores what the tree stored there, rewritten.
pub proof fn lemma_rewritten_get(tree: Json, key: Seq<char>)
    requires
        tree.get(key) is Some ==> !legacy_reference(key, tree.get(key)->0),
    ensures
        rewritten(tree).get(key) == rewritten_option(tree.get(key)),
{
    match tree {
        Json::Object(members) => {
            lemma_same_keys(members, rewritten_members(members), key);
            lemma_position(members, key);
        },
        _ => {},
    }
}

/// Rewriting leaves the location that a parameter names.
pub proof fn lemma_rewritten_located(param: Json, place: Seq<char>)
    ensures
        located(rewritten(param), place) == located(param, place),
{
    reveal_strlit("in");
    reveal_strlit("$ref");
    assert("in"@.len() == 2);
    assert("$ref"@.len() == 4);
    lemma_lengths_differ("in"@, "$ref"@);
    lemma_rewritten_get(param, "in"@);
    match param.get("in"@) {
        Some(found) => {
            lemma_rewritten_keeps_kind(found);
        },
        None => {},
    }
}

/// The schema that a rewritten request body declares for a media type is
/// the schema that the request body declared, rewritten.
pub proof fn lemma_rewritten_request_schema(request: Json, media: Seq<char>)
    requires
        media != "$ref"@,
    ensures
        request_schema(rewritten(request), media) == rewritten_option(
            request_schema(request, media),
        ),
{
    reveal_strlit("content");
    reveal_strlit("schema");
    reveal_strlit("$ref");
    assert("content"@.len() == 7);
    assert("schema"@.len() == 6);
    assert("$ref"@.len() == 4);
    lemma_lengths_differ("content"@, "$ref"@);
    lemma_lengths_differ("schema"@, "$ref"@);
    lemma_rewritten_get(request, "content"@);
    match request.get("content"@) {
        Some(content) => {
            lemma_rewritten_get(content, media);
            match content.get(media) {
                Some(entry) => {
                    lemma_rewritten_get(entry, "schema"@);
                },
                None => {},
            }
        },
        None => {},
    }
}

/// Moving a table into the components leaves what is stored under `paths`.
pub proof fn lemma_moved_keeps_paths(root: Seq<(Seq<char>, Json)>, legacy: Seq<char>, table: Seq<char>)
    requires
        legacy != "paths"@,
    ensures
        get(moved_to_components(root, legacy, table), "paths"@) == get(root, "paths"@),
{
    reveal_strlit("paths");
    reveal_strlit("components");
    assert("paths"@.len() == 5);
    assert("components"@.len() == 10);
    lemma_lengths_differ("paths"@, "components"@);
    match get(root, legacy) {
        Some(entries) => {
            let rest = del(root, legacy);
            lemma_get_del(root, legacy, "paths"@);
            let components = match get(rest, "components"@) {
                Some(Json::Object(members)) => members,
                _ => Seq::empty(),
            };
            lemma_get_put(rest, "components"@, Json::Object(put(components, table, entries)), "paths"@);
        },
        None => {},
    }
}

/// The path table of a rewritten description is the converted path table of
/// the description, with its references rewritten.
pub proof fn lemma_upgraded_paths(root: Seq<(Seq<char>, Json)>, shared: bool)
    ensures
        get(upgraded(root, shared), "paths"@) == match get(root, "paths"@) {
            Some(paths) => Some(rewritten(converted_paths(paths, shared))),
            None => None,
        },
{
    reveal_strlit("paths");
    reveal_strlit("swagger");
    reveal_strlit("openapi");
    reveal_strlit("host");
    reveal_strlit("basePath");
    reveal_strlit("schemes");
    reveal_strlit("servers");
    reveal_strlit("definitions");
    reveal_strlit("parameters");
    reveal_strlit("responses");
    reveal_strlit("securityDefinitions");
    reveal_strlit("consumes");
    reveal_strlit("produces");
    reveal_strlit("$ref");
    let key = "paths"@;
    lemma_lengths_differ(key, "swagger"@);
    lemma_lengths_differ(key, "openapi"@);
    lemma_lengths_differ(key, "host"@);
    lemma_lengths_differ(key, "basePath"@);
    lemma_lengths_differ(key, "schemes"@);
    lemma_lengths_differ(key, "servers"@);
    lemma_lengths_differ(key, "definitions"@);
    lemma_lengths_differ(key, "parameters"@);
    lemma_lengths_differ(key, "responses"@);
    lemma_lengths_differ(key, "securityDefinitions"@);
    lemma_lengths_differ(key, "consumes"@);
    lemma_lengths_differ(key, "produces"@);
    lemma_lengths_differ(key, "$ref"@);
    let r1 = del(root, "swagger"@);
    lemma_get_del(root, "swagger"@, key);
    let marked = put(r1, "openapi"@, Json::String("3.0.0"@));
    lemma_get_put(r1, "openapi"@, Json::String("3.0.0"@), key);
    let s1 = del(marked, "host"@);
    lemma_get_del(marked, "host"@, key);
    let s2 = del(s1, "basePath"@);
    lemma_get_del(s1, "basePath"@, key);
    let s3 = del(s2, "schemes"@);
    lemma_get_del(s2, "schemes"@, key);
    let served = with_servers(marked);
    let list = choose|list: Json| served == put(s3, "servers"@, list);
    lemma_get_put(s3, "servers"@, list, key);
    assert(get(served, key) == get(root, key));
    let pathed = with_converted_paths(served, shared);
    match get(served, key) {
        Some(paths) => {
            lemma_get_put(served, key, converted_paths(paths, shared), key);
        },
        None => {},
    }
    let c1 = moved_to_components(pathed, "definitions"@, "schemas"@);
    lemma_moved_keeps_paths(pathed, "definitions"@, "schemas"@);
    let c2 = moved_to_components(c1, "parameters"@, "parameters"@);
    lemma_moved_keeps_paths(c1, "parameters"@, "parameters"@);
    let c3 = moved_to_components(c2, "responses"@, "responses"@);
    lemma_moved_keeps_paths(c2, "responses"@, "responses"@);
    let tabled = moved_to_components(c3, "securityDefinitions"@, "securitySchemes"@);
    lemma_moved_keeps_paths(c3, "securityDefinitions"@, "securitySchemes"@);
    assert(tabled == with_components(pathed));
    let turned = rewritten_members(tabled);
    lemma_rewritten_get(Json::Object(tabled), key);
    let d1 = del(turned, "securityDefinitions"@);
    lemma_get_del(turned, "securityDefinitions"@, key);
    let d2 = del(d1, "consumes"@);
    lemma_get_del(d1, "consumes"@, key);
    lemma_get_del(d2, "produces"@, key);
}

/// Moving a table into the components leaves what is stored under a key
/// that is neither that of the table nor `components`.
proof fn lemma_moved_keeps(
    root: Seq<(Seq<char>, Json)>,
    legacy: Seq<char>,
    table: Seq<char>,
    key: Seq<char>,
)
    requires
        key != legacy,
        key != "components"@,
    ensures
        get(moved_to_components(root, legacy, table), key) == get(root, key),
{
    match get(root, legacy) {
        Some(entries) => {
            let rest = del(root, legacy);
            lemma_get_del(root, legacy, key);
            let components = match get(rest, "components"@) {
                Some(Json::Object(members)) => members,
                _ => Seq::empty(),
            };
            lemma_get_put(rest, "components"@, Json::Object(put(components, table, entries)), key);
        },
        None => {},
    }
}

/// The conversion of a legacy description computes its one server without
/// condition: the rewritten description holds, under `servers`, the server
/// at the URL of the declared scheme, host and base path, each with its
/// default where it is not declared.
pub proof fn law_upgraded_server(root: Seq<(Seq<char>, Json)>, shared: bool)
    ensures
        get(upgraded(root, shared), "servers"@) == Some(
            server_list(
                server_url(get(root, "schemes"@), get(root, "host"@), get(root, "basePath"@)),
            ),
        ),
{
    reveal_strlit("servers");
    reveal_strlit("swagger");
    reveal_strlit("openapi");
    reveal_strlit("host");
    reveal_strlit("basePath");
    reveal_strlit("schemes");
    reveal_strlit("paths");
    reveal_strlit("definitions");
    reveal_strlit("parameters");
    reveal_strlit("responses");
    reveal_strlit("securityDefinitions");
    reveal_strlit("components");
    reveal_strlit("consumes");
    reveal_strlit("produces");
    reveal_strlit("$ref");
    reveal_strlit("url");
    let servers = "servers"@;
    let host_key = "host"@;
    let base_key = "basePath"@;
    let schemes_key = "schemes"@;
    assert(servers.len() == 7 && host_key.len() == 4 && base_key.len() == 8 && schemes_key.len()
        == 7);
    assert("swagger"@.len() == 7 && "openapi"@.len() == 7 && "paths"@.len() == 5);
    assert("definitions"@.len() == 11 && "parameters"@.len() == 10 && "responses"@.len() == 9);
    assert("securityDefinitions"@.len() == 19 && "components"@.len() == 10);
    assert("consumes"@.len() == 8 && "produces"@.len() == 8 && "$ref"@.len() == 4);
    assert("url"@.len() == 3);
    lemma_differ_at(servers, "swagger"@, 1);
    lemma_differ_at(servers, "openapi"@, 0);
    lemma_differ_at(servers, schemes_key, 1);
    lemma_differ_at(schemes_key, "swagger"@, 1);
    lemma_differ_at(schemes_key, "openapi"@, 0);
    // What the three members hold is what the description declared.
    let r0 = del(root, "swagger"@);
    lemma_get_del(root, "swagger"@, host_key);
    lemma_get_del(root, "swagger"@, base_key);
    lemma_get_del(root, "swagger"@, schemes_key);
    let marked = put(r0, "openapi"@, Json::String("3.0.0"@));
    lemma_get_put(r0, "openapi"@, Json::String("3.0.0"@), host_key);
    lemma_get_put(r0, "openapi"@, Json::String("3.0.0"@), base_key);
    lemma_get_put(r0, "openapi"@, Json::String("3.0.0"@), schemes_key);
    let s1 = del(marked, host_key);
    lemma_get_del(marked, host_key, base_key);
    lemma_get_del(marked, host_key, schemes_key);
    let s2 = del(s1, base_key);
    lemma_get_del(s1, base_key, schemes_key);
    let s3 = del(s2, schemes_key);
    let list = server_list(
        server_url(get(root, schemes_key), get(root, host_key), get(root, base_key)),
    );
    let served = with_servers(marked);
    assert(served == put(s3, servers, list));
    lemma_get_put(s3, servers, list, servers);
    // No later step touches the member.
    let pathed = with_converted_paths(served, shared);
    match get(served, "paths"@) {
        Some(paths) => {
            lemma_get_put(served, "paths"@, converted_paths(paths, shared), servers);
        },
        None => {},
    }
    let c1 = moved_to_components(pathed, "definitions"@, "schemas"@);
    lemma_moved_keeps(pathed, "definitions"@, "schemas"@, servers);
    let c2 = moved_to_components(c1, "parameters"@, "parameters"@);
    lemma_moved_keeps(c1, "parameters"@, "parameters"@, servers);
    let c3 = moved_to_components(c2, "responses"@, "responses"@);
    lemma_moved_keeps(c2, "responses"@, "responses"@, servers);
    let tabled = moved_to_components(c3, "securityDefinitions"@, "securitySchemes"@);
    lemma_moved_keeps(c3, "securityDefinitions"@, "securitySchemes"@, servers);
    assert(tabled == with_components(pathed));
    let turned = rewritten_members(tabled);
    lemma_rewritten_get(Json::Object(tabled), servers);
    // Rewriting leaves the server as it is: its URL is no reference.
    let url = list->Array_0[0]->Object_0[0].1;
    let entry = seq![("url"@, url)];
    assert(rewritten_members(entry) =~= entry);
    assert(rewritten_items(seq![Json::Object(entry)]) =~= seq![Json::Object(entry)]);
    assert(rewritten(list) == list);
    let d1 = del(turned, "securityDefinitions"@);
    lemma_get_del(turned, "securityDefinitions"@, servers);
    let d2 = del(d1, "consumes"@);
    lemma_get_del(d1, "consumes"@, servers);
    lemma_get_del(d2, "produces"@, servers);
}

/// A converted path item binds to a verb the converted operation of what the
/// item bound to it.
proof fn lemma_converted_item_operation(
    item: Seq<(Seq<char>, Json)>,
    shared: bool,
    verb: Seq<char>,
    operation: Seq<(Seq<char>, Json)>,
)
    requires
        get(item, verb) == Some(Json::Object(operation)),
    ensures
        converted_path_item(Json::Object(item), shared).get(verb) == Some(
            Json::Object(converted_operation(operation)),
        ),
{
    let first = if shared {
        converted_shared(item)
    } else {
        item
    };
    if shared {
        match get(item, "parameters"@) {
            Some(Json::Array(params)) => {
                lemma_get_put(
                    item,
                    "parameters"@,
                    Json::Array(params.map_values(|p: Json| converted_parameter(p))),
                    verb,
                );
            },
            _ => {},
        }
    }
    assert(get(first, verb) == Some(Json::Object(operation)));
    let mapped = first.map_values(|m: (Seq<char>, Json)| (m.0, converted_member(m.1)));
    lemma_same_keys(first, mapped, verb);
    lemma_position(first, verb);
}

/// Rewriting drops no operation: the operation that a legacy description
/// binds to a verb at a path is, in the rewritten description, bound to the
/// same verb at the same path, converted and with its references rewritten.
pub proof fn law_operations_stay_in_place(
    root: Seq<(Seq<char>, Json)>,
    shared: bool,
    path: Seq<char>,
    verb: Seq<char>,
    operation: Seq<(Seq<char>, Json)>,
)
    requires
        operation_at(root, path, verb) == Some(Json::Object(operation)),
    ensures
        operation_at(upgraded(root, shared), path, verb) == Some(
            rewritten(Json::Object(converted_operation(operation))),
        ),
{
    lemma_upgraded_paths(root, shared);
    let paths = get(root, "paths"@)->0;
    let item = paths.get(path)->0;
    let converted = converted_paths(paths, shared);
    match paths {
        Json::Object(entries) => {
            let mapped = entries.map_values(
                |m: (Seq<char>, Json)| (m.0, converted_path_item(m.1, shared)),
            );
            lemma_same_keys(entries, mapped, path);
            lemma_position(entries, path);
            assert(converted.get(path) == Some(converted_path_item(item, shared)));
        },
        _ => {
            lemma_position(Seq::empty(), path);
        },
    }
    match item {
        Json::Object(members) => {
            lemma_converted_item_operation(members, shared, verb, operation);
        },
        _ => {
            lemma_position(Seq::empty(), verb);
        },
    }
    lemma_rewritten_get(converted, path);
    lemma_rewritten_get(converted_path_item(item, shared), verb);
}

/// Of a legacy description with an operation that has a parameter in the
/// body location, with form parameters beside it or without: in the
/// rewritten description, none of the parameters of the operation is in the
/// body location, and the operation has one request body whose
/// `application/json` schema is the schema of the body parameter, with its
/// references rewritten.
pub proof fn law_normalized_body_parameter(
    root: Seq<(Seq<char>, Json)>,
    shared: bool,
    path: Seq<char>,
    verb: Seq<char>,
    operation: Seq<(Seq<char>, Json)>,
    params: Seq<Json>,
)
    requires
        operation_at(root, path, verb) == Some(Json::Object(operation)),
        distinct_keys(operation),
        get(operation, "parameters"@) == Some(Json::Array(params)),
        body_parameter(params) is Some,
    ensures
        operation_at(upgraded(root, shared), path, verb) is Some,
        match operation_at(upgraded(root, shared), path, verb)->0.get("parameters"@) {
            Some(Json::Array(kept)) => forall|i: int|
                0 <= i < kept.len() ==> !located(#[trigger] kept[i], "body"@),
            Some(_) => false,
            None => true,
        },
        operation_at(upgraded(root, shared), path, verb)->0.get("requestBody"@) is Some,
        request_schema(
            operation_at(upgraded(root, shared), path, verb)->0.get("requestBody"@)->0,
            "application/json"@,
        ) == rewritten_option(body_parameter(params)->0.get("schema"@)),
{
    reveal_strlit("parameters");
    reveal_strlit("requestBody");
    reveal_strlit("application/json");
    reveal_strlit("$ref");
    lemma_lengths_differ("parameters"@, "$ref"@);
    lemma_lengths_differ("requestBody"@, "$ref"@);
    lemma_lengths_differ("application/json"@, "$ref"@);
    law_operations_stay_in_place(root, shared, path, verb, operation);
    law_body_parameter_becomes_request_body(operation, params);
    let converted = Json::Object(converted_operation(operation));
    lemma_rewritten_get(converted, "parameters"@);
    lemma_rewritten_get(converted, "requestBody"@);
    lemma_rewritten_request_schema(converted.get("requestBody"@)->0, "application/json"@);
    match converted.get("parameters"@) {
        Some(Json::Array(kept)) => {
            let turned = rewritten_items(kept);
            assert forall|i: int| 0 <= i < turned.len() implies !located(
                #[trigger] turned[i],
                "body"@,
            ) by {
                lemma_rewritten_located(kept[i], "body"@);
            }
        },
        _ => {},
    }
}

/// Of a legacy description with an operation that has parameters in the form
/// location: in the rewritten description, the operation has a request body
/// whose `application/x-www-form-urlencoded` schema lists as required exactly
/// the names of the form parameters that were marked required, in their
/// order.
pub proof fn law_normalized_form_parameters(
    root: Seq<(Seq<char>, Json)>,
    shared: bool,
    path: Seq<char>,
    verb: Seq<char>,
    operation: Seq<(Seq<char>, Json)>,
    params: Seq<Json>,
)
    requires
        operation_at(root, path, verb) == Some(Json::Object(operation)),
        get(operation, "parameters"@) == Some(Json::Array(params)),
        any_form(params),
    ensures
        operation_at(upgraded(root, shared), path, verb) is Some,
        operation_at(upgraded(root, shared), path, verb)->0.get("requestBody"@) is Some,
        request_schema(
            operation_at(upgraded(root, shared), path, verb)->0.get("requestBody"@)->0,
            "application/x-www-form-urlencoded"@,
        ) == Some(rewritten(form_schema(params))),
        required_list(rewritten(form_schema(params))) == form_required(params),
        forall|name: Seq<char>|
            #[trigger] required_list(rewritten(form_schema(params))).contains(Json::String(name))
                <==> exists|i: int|
                0 <= i < params.len() && required_form(#[trigger] params[i])
                    && params[i].get_str("name"@) == Some(name),
{
    reveal_strlit("requestBody");
    reveal_strlit("application/x-www-form-urlencoded");
    reveal_strlit("required");
    reveal_strlit("$ref");
    lemma_lengths_differ("requestBody"@, "$ref"@);
    lemma_lengths_differ("application/x-www-form-urlencoded"@, "$ref"@);
    lemma_lengths_differ("required"@, "$ref"@);
    law_operations_stay_in_place(root, shared, path, verb, operation);
    law_form_parameters_list_required_names(operation, params);
    let converted = Json::Object(converted_operation(operation));
    lemma_rewritten_get(converted, "requestBody"@);
    lemma_rewritten_request_schema(
        converted.get("requestBody"@)->0,
        "application/x-www-form-urlencoded"@,
    );
    let schema = form_schema(params);
    lemma_rewritten_get(schema, "required"@);
    let names = form_required(params);
    lemma_required_are_texts(params);
    assert(rewritten_items(names) =~= names) by {
        assert forall|i: int| 0 <= i < names.len() implies rewritten_items(names)[i]
            == names[i] by {
            lemma_rewritten_keeps_kind(names[i]);
        }
    }
    assert(required_list(rewritten(schema)) == names);
}

/// The names that are listed as required are texts.
proof fn lemma_required_are_texts(params: Seq<Json>)
    ensures
        forall|i: int|
            0 <= i < form_required(params).len() ==> (#[trigger] form_required(params)[i])
                is String,
    decreases params.len(),
{
    if params.len() > 0 {
        lemma_required_are_texts(params.drop_last());
        let before = form_required(params.drop_last());
        let after = form_required(params);
        assert forall|i: int| 0 <= i < after.len() implies (#[trigger] after[i]) is String by {
            if i < before.len() {
                assert(after[i] == before[i]);
            }
        }
    }
}

// ---------------------------------------------------------------------------
// References in the document
// ---------------------------------------------------------------------------
/// No reference in the schema, at any depth, points at the legacy
/// definitions.
pub open spec fn schema_is_free(schema: SchemaView) -> bool
    decreases schema,
{
    match schema {
        SchemaView::Reference { target } => !starts_with(target, legacy_prefix()),
        SchemaView::Object { properties, required } => forall|i: int|
            0 <= i < properties.len() ==> schema_is_free((#[trigger] properties[i]).1),
        SchemaView::Array { items } => match items {
            Some(inner) => schema_is_free(*inner),
            None => true,
        },
        _ => true,
    }
}

/// No reference in a schema that may be missing points at the legacy
/// definitions.
pub open spec fn optional_schema_is_free(schema: Option<SchemaView>) -> bool {
    match schema {
        Some(found) => schema_is_free(found),
        None => true,
    }
}

/// No reference in the schemas of the parameters and of the request body of
/// the operation points at the legacy definitions.
pub open spec fn operation_is_free(operation: OperationView) -> bool {
    &&& forall|i: int|
        0 <= i < operation.parameters.len() ==> optional_schema_is_free(
            (#[trigger] operation.parameters[i]).schema,
        )
    &&& match operation.request_body {
        Some(body) => forall|i: int|
            0 <= i < body.content.len() ==> optional_schema_is_free(
                (#[trigger] body.content[i]).schema,
            ),
        None => true,
    }
}

/// No reference in the operations of the path item points at the legacy
/// definitions.
pub open spec fn item_is_free(item: PathItemView) -> bool {
    forall|verb: Verb|
        (#[trigger] item.operation(verb)) is Some ==> operation_is_free(item.operation(verb)->0)
}

/// No reference in the document, in a component or in an operation, points
/// at the legacy definitions.
pub open spec fn document_is_free(document: DocumentView) -> bool {
    &&& forall|i: int|
        0 <= i < document.components.len() ==> schema_is_free(
            (#[trigger] document.components[i]).1,
        )
    &&& forall|i: int|
        0 <= i < document.paths.len() ==> item_is_free((#[trigger] document.paths[i]).1)
}

/// What a tree without references to the legacy definitions stores under a
/// key holds none either, and is none itself.
proof fn lemma_value_is_free(tree: Json, key: Seq<char>)
    requires
        free_of_legacy_references(tree),
    ensures
        tree.get(key) is Some ==> free_of_legacy_references(tree.get(key)->0) && !legacy_reference(
            key,
            tree.get(key)->0,
        ),
{
    match tree {
        Json::Object(members) => {
            lemma_free_object(members);
            lemma_position(members, key);
            match position(members, key) {
                Some(at) => {
                    assert(!legacy_reference(members[at].0, members[at].1)
                        && free_of_legacy_references(members[at].1));
                },
                None => {},
            }
        },
        _ => {
            lemma_position(Seq::empty(), key);
        },
    }
}

/// The schemas that are read from a table without references to the legacy
/// definitions have none.
proof fn lemma_schemas_are_free(table: Json)
    requires
        free_of_legacy_references(table),
    ensures
        forall|i: int|
            0 <= i < schemas_in(table).len() ==> schema_is_free((#[trigger] schemas_in(table)[i]).1),
    decreases table, 0nat,
{
    match table {
        Json::Object(entries) => {
            lemma_free_object(entries);
            assert forall|i: int| 0 <= i < schemas_in(table).len() implies schema_is_free(
                (#[trigger] schemas_in(table)[i]).1,
            ) by {
                assert(free_of_legacy_references(entries[i].1));
                crate::json::lemma_member_below(table, entries, i);
                lemma_schema_is_free(entries[i].1);
            }
        },
        _ => {},
    }
}

/// The schema that is read from a tree without references to the legacy
/// definitions has none.
pub proof fn lemma_schema_is_free(tree: Json)
    requires
        free_of_legacy_references(tree),
    ensures
        schema_is_free(schema_of(tree)),
    decreases tree, 1nat,
{
    lemma_value_is_free(tree, "$ref"@);
    match tree.get_str("$ref"@) {
        Some(target) => {},
        None => {
            match tree.get("properties"@) {
                Some(table) => {
                    lemma_value_is_free(tree, "properties"@);
                    crate::json::lemma_value_below(tree, "properties"@);
                    lemma_schemas_are_free(table);
                },
                None => {},
            }
            match tree.get("items"@) {
                Some(inner) => {
                    lemma_value_is_free(tree, "items"@);
                    crate::json::lemma_value_below(tree, "items"@);
                    lemma_schema_is_free(inner);
                },
                None => {},
            }
            let schema = schema_of(tree);
            match schema {
                SchemaView::Object { properties, required } => {
                    assert(properties == properties_of(tree));
                    assert forall|i: int| 0 <= i < properties.len() implies schema_is_free(
                        (#[trigger] properties[i]).1,
                    ) by {
                        let table = tree.get("properties"@)->0;
                        assert(properties[i] == schemas_in(table)[i]);
                    }
                },
                SchemaView::Array { items } => {
                    assert(items == items_of(tree));
                },
                _ => {},
            }
        },
    }
}

/// The schema that a tree without references to the legacy definitions
/// declares has none.
proof fn lemma_declared_schema_is_free(tree: Json)
    requires
        free_of_legacy_references(tree),
    ensures
        optional_schema_is_free(declared_schema(tree)),
{
    lemma_value_is_free(tree, "schema"@);
    match tree.get("schema"@) {
        Some(schema) => {
            lemma_schema_is_free(schema);
        },
        None => {},
    }
}

/// The parameters that are read from a list without references to the
/// legacy definitions have none.
proof fn lemma_parameters_are_free(items: Seq<Json>)
    requires
        free_of_legacy_references(Json::Array(items)),
        parameters_of(items) is Some,
    ensures
        forall|i: int|
            0 <= i < parameters_of(items)->0.len() ==> optional_schema_is_free(
                (#[trigger] parameters_of(items)->0[i]).schema,
            ),
    decreases items.len(),
{
    lemma_free_array(items);
    if items.len() > 0 {
        let front = items.drop_last();
        lemma_free_array(front);
        assert forall|i: int| 0 <= i < front.len() implies free_of_legacy_references(
            #[trigger] front[i],
        ) by {
            assert(front[i] == items[i]);
        }
        lemma_parameters_are_free(front);
        let before = parameters_of(front)->0;
        let after = parameters_of(items)->0;
        assert(free_of_legacy_references(items[items.len() - 1]));
        lemma_declared_schema_is_free(items.last());
        assert forall|i: int| 0 <= i < after.len() implies optional_schema_is_free(
            (#[trigger] after[i]).schema,
        ) by {
            if i < before.len() {
                assert(after[i] == before[i]);
            }
        }
    }
}

/// The content that is read from a table without references to the legacy
/// definitions has none.
proof fn lemma_media_types_are_free(entries: Seq<(Seq<char>, Json)>)
    requires
        free_members(entries),
        media_types_of(entries) is Some,
    ensures
        forall|i: int|
            0 <= i < media_types_of(entries)->0.len() ==> optional_schema_is_free(
                (#[trigger] media_types_of(entries)->0[i]).schema,
            ),
    decreases entries.len(),
{
    if entries.len() > 0 {
        let front = entries.drop_last();
        assert forall|i: int| 0 <= i < front.len() implies !legacy_reference(
            (#[trigger] front[i]).0,
            front[i].1,
        ) && free_of_legacy_references(front[i].1) by {
            assert(front[i] == entries[i]);
        }
        lemma_media_types_are_free(front);
        let before = media_types_of(front)->0;
        let after = media_types_of(entries)->0;
        assert(free_of_legacy_references(entries[entries.len() - 1].1));
        lemma_declared_schema_is_free(entries.last().1);
        assert forall|i: int| 0 <= i < after.len() implies optional_schema_is_free(
            (#[trigger] after[i]).schema,
        ) by {
            if i < before.len() {
                assert(after[i] == before[i]);
            }
        }
    }
}

/// The operation that is read from a tree without references to the legacy
/// definitions has none.
proof fn lemma_operation_is_free(tree: Json)
    requires
        free_of_legacy_references(tree),
        operation_of(tree) is Some,
    ensures
        operation_is_free(operation_of(tree)->0),
{
    lemma_value_is_free(tree, "parameters"@);
    match tree.get("parameters"@) {
        Some(Json::Array(items)) => {
            lemma_parameters_are_free(items);
        },
        _ => {},
    }
    lemma_value_is_free(tree, "requestBody"@);
    match tree.get("requestBody"@) {
        Some(body) => {
            lemma_value_is_free(body, "content"@);
            match body.get("content"@) {
                Some(Json::Object(entries)) => {
                    if !is_reference(body) {
                        lemma_free_object(entries);
                        lemma_media_types_are_free(entries);
                    }
                },
                _ => {},
            }
        },
        None => {},
    }
}

/// The operation that a path item without references to the legacy
/// definitions binds to a verb has none.
proof fn lemma_bound_operation_is_free(tree: Json, verb: Verb)
    requires
        free_of_legacy_references(tree),
        bound_operation(tree, verb) is Some,
    ensures
        bound_operation(tree, verb)->0 is Some ==> operation_is_free(
            bound_operation(tree, verb)->0->0,
        ),
{
    lemma_value_is_free(tree, verb.key());
    match tree.get(verb.key()) {
        Some(operation) => {
            if !(operation is Null) {
                lemma_operation_is_free(operation);
            }
        },
        None => {},
    }
}

/// The path item that is read from a tree without references to the legacy
/// definitions has none.
proof fn lemma_item_is_free(tree: Json)
    requires
        free_of_legacy_references(tree),
        path_item_of(tree) is Some,
    ensures
        item_is_free(path_item_of(tree)->0),
{
    if !is_reference(tree) {
        lemma_bound_operation_is_free(tree, Verb::Get);
        lemma_bound_operation_is_free(tree, Verb::Put);
        lemma_bound_operation_is_free(tree, Verb::Post);
        lemma_bound_operation_is_free(tree, Verb::Delete);
        lemma_bound_operation_is_free(tree, Verb::Options);
        lemma_bound_operation_is_free(tree, Verb::Head);
        lemma_bound_operation_is_free(tree, Verb::Patch);
        lemma_bound_operation_is_free(tree, Verb::Trace);
    }
    let item = path_item_of(tree)->0;
    assert forall|verb: Verb| (#[trigger] item.operation(verb)) is Some implies operation_is_free(
        item.operation(verb)->0,
    ) by {
        match verb {
            Verb::Get => {},
            Verb::Put => {},
            Verb::Post => {},
            Verb::Delete => {},
            Verb::Options => {},
            Verb::Head => {},
            Verb::Patch => {},
            Verb::Trace => {},
        }
    }
}

/// The path items that are read from a table without references to the
/// legacy definitions have none.
proof fn lemma_paths_are_free(entries: Seq<(Seq<char>, Json)>)
    requires
        free_members(entries),
        paths_of(entries) is Some,
    ensures
        forall|i: int|
            0 <= i < paths_of(entries)->0.len() ==> item_is_free(
                (#[trigger] paths_of(entries)->0[i]).1,
            ),
    decreases entries.len(),
{
    if entries.len() > 0 {
        let front = entries.drop_last();
        assert forall|i: int| 0 <= i < front.len() implies !legacy_reference(
            (#[trigger] front[i]).0,
            front[i].1,
        ) && free_of_legacy_references(front[i].1) by {
            assert(front[i] == entries[i]);
        }
        lemma_paths_are_free(front);
        let before = paths_of(front)->0;
        let after = paths_of(entries)->0;
        assert(free_of_legacy_references(entries[entries.len() - 1].1));
        if is_template(entries.last().0) {
            lemma_item_is_free(entries.last().1);
        }
        assert forall|i: int| 0 <= i < after.len() implies item_is_free((#[trigger] after[i]).1) by {
            if i < before.len() {
                assert(after[i] == before[i]);
            }
        }
    }
}

/// The document that is read from a description without references to the
/// legacy definitions has none.
pub proof fn lemma_document_is_free(tree: Json)
    requires
        free_of_legacy_references(tree),
        document_of(tree) is Some,
    ensures
        document_is_free(document_of(tree)->0),
{
    lemma_value_is_free(tree, "paths"@);
    match tree.get("paths"@) {
        Some(Json::Object(entries)) => {
            lemma_free_object(entries);
            lemma_paths_are_free(entries);
        },
        _ => {},
    }
    lemma_value_is_free(tree, "components"@);
    match tree.get("components"@) {
        Some(components) => {
            lemma_value_is_free(components, "schemas"@);
            match components.get("schemas"@) {
                Some(Json::Object(entries)) => {
                    lemma_schemas_are_free(Json::Object(entries));
                },
                _ => {},
            }
        },
        None => {},
    }
}

/// Reference rewriting is total: in the document that a local way of
/// conversion gives for a legacy description, no reference, in a component
/// or in an operation, points at the legacy definitions.
pub proof fn law_converted_document_is_free(tree: Json, document: DocumentView)
    requires
        legacy_reading(tree) == Some(document),
    ensures
        document_is_free(document),
{
    match converted_reading(upgraded_tree(tree, true)) {
        Ok(found) => {
            let root = tree.members();
            lemma_upgraded_is_free(root, true);
            lemma_document_is_free(Json::Object(upgraded(root, true)));
        },
        Err(_) => {
            lemma_rebuilt_is_free(tree);
            lemma_document_is_free(typed_spec(tree)->0);
        },
    }
}

} // verus!
