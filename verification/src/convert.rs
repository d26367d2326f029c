//! The rewriting of a legacy (Swagger 2.x) description tree into the
//! canonical (OpenAPI 3) shape.

use crate::error::{CurlGeneratorError, ErrorView};
use crate::json::{
    del, distinct_keys, find, get, has, insert, insert_some, items_view, lemma_get_del,
    lemma_get_put, lookup, members_view, one, option_view, push_member, put, put_some, remove,
    Json,
    JsonValue, Member,
};
use crate::text::{
    concat, lemma_lengths_differ, starts_with, starts_with_text, text_eq,
};
use vstd::prelude::*;

verus! {

// ---------------------------------------------------------------------------
// Parameters
// ---------------------------------------------------------------------------
/// A pair of member lists after the member under `key` has gone from the
/// first to the second.
pub open spec fn moved(
    from: Seq<(Seq<char>, Json)>,
    to: Seq<(Seq<char>, Json)>,
    key: Seq<char>,
) -> (Seq<(Seq<char>, Json)>, Seq<(Seq<char>, Json)>) {
    (del(from, key), put_some(to, key, get(from, key)))
}

/// The schema `{"type": "string"}` that a parameter without typing gets.
pub open spec fn string_schema() -> Json {
    one("type"@, Json::String("string"@))
}

/// A parameter with a `type`: its scalar typing members are gathered, in
/// this order, into a `schema` member, and `collectionFormat` is dropped.
pub open spec fn typed_parameter(members: Seq<(Seq<char>, Json)>) -> Seq<(Seq<char>, Json)> {
    let s1 = moved(members, Seq::empty(), "type"@);
    let s2 = moved(s1.0, s1.1, "format"@);
    let s3 = moved(s2.0, s2.1, "items"@);
    let s4 = moved(del(s3.0, "collectionFormat"@), s3.1, "default"@);
    let s5 = moved(s4.0, s4.1, "enum"@);
    let s6 = moved(s5.0, s5.1, "minimum"@);
    let s7 = moved(s6.0, s6.1, "maximum"@);
    let s8 = moved(s7.0, s7.1, "minLength"@);
    let s9 = moved(s8.0, s8.1, "maxLength"@);
    let s10 = moved(s9.0, s9.1, "pattern"@);
    put(s10.0, "schema"@, Json::Object(s10.1))
}

/// A parameter in the canonical shape: one that declares a schema or content
/// stays as it is; one with a `type` gets a schema of its typing members; any
/// other object gets a string schema; what is no object stays as it is.
pub open spec fn converted_parameter(param: Json) -> Json {
    match param {
        Json::Object(members) => if has(members, "schema"@) || has(members, "content"@) {
            param
        } else if has(members, "type"@) {
            Json::Object(typed_parameter(members))
        } else {
            Json::Object(put(members, "schema"@, string_schema()))
        },
        _ => param,
    }
}

/// The parameter is an object that names `place` as its location.
pub open spec fn located(param: Json, place: Seq<char>) -> bool {
    param is Object && param.get_str("in"@) == Some(place)
}

/// The parameters that stay parameters: the objects in neither the body nor
/// the form location, each converted, in their order. What is no object is
/// no parameter and is left out.
pub open spec fn kept_parameters(params: Seq<Json>) -> Seq<Json>
    decreases params.len(),
{
    if params.len() == 0 {
        params
    } else {
        let before = kept_parameters(params.drop_last());
        let p = params.last();
        if !(p is Object) || located(p, "body"@) || located(p, "formData"@) {
            before
        } else {
            before.push(converted_parameter(p))
        }
    }
}

/// The last parameter in the body location.
pub open spec fn body_parameter(params: Seq<Json>) -> Option<Json>
    decreases params.len(),
{
    if params.len() == 0 {
        None
    } else if located(params.last(), "body"@) {
        Some(params.last())
    } else {
        body_parameter(params.drop_last())
    }
}

/// Whether a parameter is in the form location.
pub open spec fn any_form(params: Seq<Json>) -> bool
    decreases params.len(),
{
    if params.len() == 0 {
        false
    } else {
        located(params.last(), "formData"@) || any_form(params.drop_last())
    }
}

/// The property that a form parameter becomes: its type, format and description.
pub open spec fn form_property(param: Json) -> Json {
    let members = param.members();
    Json::Object(
        put_some(
            put_some(
                put_some(Seq::empty(), "type"@, get(members, "type"@)),
                "format"@,
                get(members, "format"@),
            ),
            "description"@,
            get(members, "description"@),
        ),
    )
}

/// The properties of the form schema: one for each named form parameter.
pub open spec fn form_properties(params: Seq<Json>) -> Seq<(Seq<char>, Json)>
    decreases params.len(),
{
    if params.len() == 0 {
        Seq::empty()
    } else {
        let before = form_properties(params.drop_last());
        let p = params.last();
        match p.get_str("name"@) {
            Some(name) => if located(p, "formData"@) {
                put(before, name, form_property(p))
            } else {
                before
            },
            None => before,
        }
    }
}

/// A named form parameter that is marked required.
pub open spec fn required_form(param: Json) -> bool {
    located(param, "formData"@) && param.get_str("name"@) is Some && param.get("required"@)
        == Some(Json::Bool(true))
}

/// The names of the form parameters that are marked required, in order.
pub open spec fn form_required(params: Seq<Json>) -> Seq<Json>
    decreases params.len(),
{
    if params.len() == 0 {
        Seq::empty()
    } else {
        let before = form_required(params.drop_last());
        let p = params.last();
        if required_form(p) {
            before.push(Json::String(p.get_str("name"@)->0))
        } else {
            before
        }
    }
}

/// What the request body takes from a body parameter beside its schema:
/// the description and the required flag.
pub open spec fn body_described(param: Json) -> Seq<(Seq<char>, Json)> {
    put_some(
        put_some(Seq::empty(), "description"@, param.get("description"@)),
        "required"@,
        param.get("required"@),
    )
}

/// The schema of the form request body: an object with the form properties
/// and, where any is required, the list of the required names.
pub open spec fn form_schema(params: Seq<Json>) -> Json {
    let typed = seq![
        ("type"@, Json::String("object"@)),
        ("properties"@, Json::Object(form_properties(params))),
    ];
    if form_required(params).len() > 0 {
        Json::Object(typed.push(("required"@, Json::Array(form_required(params)))))
    } else {
        Json::Object(typed)
    }
}

/// The schema that the body parameter declares, where there is a body
/// parameter and it declares one.
pub open spec fn body_schema(params: Seq<Json>) -> Option<Json> {
    match body_parameter(params) {
        Some(body) => body.get("schema"@),
        None => None,
    }
}

/// The content of the request body, by media type: the schema of the body
/// parameter under `application/json`, where it declares one, and the schema
/// of the form parameters under `application/x-www-form-urlencoded`, where
/// there are form parameters.
pub open spec fn request_content(params: Seq<Json>) -> Seq<(Seq<char>, Json)> {
    let json_part: Seq<(Seq<char>, Json)> = match body_schema(params) {
        Some(schema) => seq![("application/json"@, one("schema"@, schema))],
        None => Seq::empty(),
    };
    if any_form(params) {
        json_part.push(("application/x-www-form-urlencoded"@, one("schema"@, form_schema(params))))
    } else {
        json_part
    }
}

/// The one request body of an operation with these parameters, where there
/// is a body parameter or a form parameter: the description and required
/// flag of the body parameter, and the content of both.
pub open spec fn request_body(params: Seq<Json>) -> Option<Json> {
    if body_parameter(params) is None && !any_form(params) {
        None
    } else {
        let described = match body_parameter(params) {
            Some(body) => body_described(body),
            None => Seq::empty(),
        };
        let content = request_content(params);
        Some(
            Json::Object(
                if content.len() > 0 {
                    put(described, "content"@, Json::Object(content))
                } else {
                    described
                },
            ),
        )
    }
}

/// An operation in the canonical shape: its parameter list holds the kept
/// parameters, or is gone where none is kept, and its request body is the
/// one that the body or form parameters give.
pub open spec fn converted_operation(op: Seq<(Seq<char>, Json)>) -> Seq<(Seq<char>, Json)> {
    match get(op, "parameters"@) {
        Some(Json::Array(params)) => {
            let kept = kept_parameters(params);
            let listed = put(op, "parameters"@, Json::Array(kept));
            let bodied = put_some(listed, "requestBody"@, request_body(params));
            if kept.len() == 0 {
                del(bodied, "parameters"@)
            } else {
                bodied
            }
        },
        _ => op,
    }
}

/// A copy of a member list.
pub fn clone_members(members: &Vec<Member>) -> (copy: Vec<Member>)
    ensures
        members_view(copy@) == members_view(members@),
{
    let mut copy: Vec<Member> = Vec::new();
    let mut i: usize = 0;
    while i < members.len()
        invariant
            i <= members.len(),
            copy.len() == i,
            forall|k: int|
                0 <= k < i ==> copy@[k].key@ == members@[k].key@ && copy@[k].value@
                    == members@[k].value@,
        decreases members.len() - i,
    {
        copy.push(Member { key: members[i].key.clone(), value: members[i].value.deep_clone() });
        i += 1;
    }
    assert(members_view(copy@) =~= members_view(members@));
    copy
}

/// A copy of the value under `key`, where there is one.
fn copy_of(members: &Vec<Member>, key: &str) -> (copy: Option<JsonValue>)
    ensures
        match copy {
            Some(value) => get(members_view(members@), key@) == Some(value@),
            None => get(members_view(members@), key@) is None,
        },
{
    match lookup(members, key) {
        Some(value) => Some(value.deep_clone()),
        None => None,
    }
}

/// Takes the member under `key` out of `from` and stores it in `to`.
fn move_key(from: &mut Vec<Member>, to: &mut Vec<Member>, key: &str)
    ensures
        (members_view(final(from)@), members_view(final(to)@)) == moved(
            members_view(old(from)@),
            members_view(old(to)@),
            key@,
        ),
{
    let taken = remove(from, key);
    insert_some(to, key, taken);
}

/// Gives a parameter of a legacy description the canonical shape.
pub fn convert_parameter_v2_to_v3(param: JsonValue) -> (out: JsonValue)
    ensures
        out@ == converted_parameter(param@),
{
    match param {
        JsonValue::Object(members) => {
            let mut members = members;
            if find(&members, "schema").is_some() || find(&members, "content").is_some() {
                JsonValue::Object(members)
            } else if find(&members, "type").is_some() {
                let mut schema: Vec<Member> = Vec::new();
                assert(members_view(schema@) =~= Seq::empty());
                move_key(&mut members, &mut schema, "type");
                move_key(&mut members, &mut schema, "format");
                move_key(&mut members, &mut schema, "items");
                let _ = remove(&mut members, "collectionFormat");
                move_key(&mut members, &mut schema, "default");
                move_key(&mut members, &mut schema, "enum");
                move_key(&mut members, &mut schema, "minimum");
                move_key(&mut members, &mut schema, "maximum");
                move_key(&mut members, &mut schema, "minLength");
                move_key(&mut members, &mut schema, "maxLength");
                move_key(&mut members, &mut schema, "pattern");
                insert(&mut members, "schema", JsonValue::Object(schema));
                JsonValue::Object(members)
            } else {
                insert(&mut members, "schema", JsonValue::single("type", JsonValue::string("string")));
                JsonValue::Object(members)
            }
        },
        other => other,
    }
}

/// Whether the parameter is an object that names `place` as its location.
fn is_located(param: &JsonValue, place: &str) -> (yes: bool)
    ensures
        yes == located(param@, place@),
{
    match param {
        JsonValue::Object(_) => match param.get_str("in") {
            Some(found) => text_eq(found, place),
            None => false,
        },
        _ => false,
    }
}

/// The parameters that stay parameters, converted.
fn keep_parameters(params: &Vec<JsonValue>) -> (kept: Vec<JsonValue>)
    ensures
        items_view(kept@) == kept_parameters(items_view(params@)),
{
    let ghost model = items_view(params@);
    let mut kept: Vec<JsonValue> = Vec::new();
    let mut i: usize = 0;
    assert(items_view(kept@) =~= kept_parameters(model.take(0)));
    while i < params.len()
        invariant
            i <= params.len(),
            model == items_view(params@),
            items_view(kept@) == kept_parameters(model.take(i as int)),
        decreases params.len() - i,
    {
        let p = &params[i];
        proof {
            assert(model.take(i + 1).drop_last() =~= model.take(i as int));
            assert(model.take(i + 1).last() == p@);
        }
        let ghost before = items_view(kept@);
        match p {
            JsonValue::Object(_) => {
                if is_located(p, "body") || is_located(p, "formData") {
                } else {
                    let converted = convert_parameter_v2_to_v3(p.deep_clone());
                    kept.push(converted);
                    assert(items_view(kept@) =~= before.push(converted_parameter(p@)));
                }
            },
            _ => {},
        }
        i += 1;
    }
    assert(model.take(i as int) =~= model);
    kept
}

/// The last parameter in the body location.
fn find_body(params: &Vec<JsonValue>) -> (body: Option<&JsonValue>)
    ensures
        match body {
            Some(param) => body_parameter(items_view(params@)) == Some(param@),
            None => body_parameter(items_view(params@)) is None,
        },
{
    let ghost model = items_view(params@);
    let mut body: Option<&JsonValue> = None;
    let mut i: usize = 0;
    assert(model.take(0) =~= Seq::empty());
    while i < params.len()
        invariant
            i <= params.len(),
            model == items_view(params@),
            match body {
                Some(param) => body_parameter(model.take(i as int)) == Some(param@),
                None => body_parameter(model.take(i as int)) is None,
            },
        decreases params.len() - i,
    {
        proof {
            assert(model.take(i + 1).drop_last() =~= model.take(i as int));
            assert(model.take(i + 1).last() == params@[i as int]@);
        }
        if is_located(&params[i], "body") {
            body = Some(&params[i]);
        }
        i += 1;
    }
    assert(model.take(i as int) =~= model);
    body
}

/// The property that a form parameter becomes.
fn make_form_property(param: &Vec<Member>) -> (property: JsonValue)
    ensures
        property@ == form_property(Json::Object(members_view(param@))),
{
    let mut members: Vec<Member> = Vec::new();
    assert(members_view(members@) =~= Seq::empty());
    insert_some(&mut members, "type", copy_of(param, "type"));
    insert_some(&mut members, "format", copy_of(param, "format"));
    insert_some(&mut members, "description", copy_of(param, "description"));
    JsonValue::Object(members)
}

/// The schema of the request body that the form parameters become, and
/// whether there is any form parameter.
fn make_form_schema(params: &Vec<JsonValue>) -> (found: (bool, JsonValue))
    ensures
        found.0 == any_form(items_view(params@)),
        found.1@ == form_schema(items_view(params@)),
{
    let ghost model = items_view(params@);
    let mut any = false;
    let mut properties: Vec<Member> = Vec::new();
    let mut required: Vec<JsonValue> = Vec::new();
    let mut i: usize = 0;
    assert(model.take(0) =~= Seq::empty());
    assert(members_view(properties@) =~= Seq::empty());
    assert(items_view(required@) =~= Seq::empty());
    while i < params.len()
        invariant
            i <= params.len(),
            model == items_view(params@),
            any == any_form(model.take(i as int)),
            members_view(properties@) == form_properties(model.take(i as int)),
            items_view(required@) == form_required(model.take(i as int)),
        decreases params.len() - i,
    {
        let p = &params[i];
        proof {
            assert(model.take(i + 1).drop_last() =~= model.take(i as int));
            assert(model.take(i + 1).last() == p@);
        }
        if is_located(p, "formData") {
            any = true;
            match p {
                JsonValue::Object(members) => {
                    match p.get_str("name") {
                        Some(name) => {
                            insert(&mut properties, name, make_form_property(members));
                            let marked = match p.get("required") {
                                Some(JsonValue::Bool(b)) => *b,
                                _ => false,
                            };
                            if marked {
                                let ghost before = items_view(required@);
                                required.push(JsonValue::string(name));
                                assert(items_view(required@) =~= before.push(
                                    Json::String(name@),
                                ));
                            }
                        },
                        None => {},
                    }
                },
                _ => {},
            }
        }
        i += 1;
    }
    assert(model.take(i as int) =~= model);
    let mut schema: Vec<Member> = Vec::new();
    schema.push(Member { key: String::from_str("type"), value: JsonValue::string("object") });
    schema.push(
        Member { key: String::from_str("properties"), value: JsonValue::Object(properties) },
    );
    if required.len() > 0 {
        schema.push(
            Member { key: String::from_str("required"), value: JsonValue::Array(required) },
        );
        assert(members_view(schema@) =~= seq![
            ("type"@, Json::String("object"@)),
            ("properties"@, Json::Object(form_properties(model))),
        ].push(("required"@, Json::Array(form_required(model)))));
    } else {
        assert(members_view(schema@) =~= seq![
            ("type"@, Json::String("object"@)),
            ("properties"@, Json::Object(form_properties(model))),
        ]);
    }
    (any, JsonValue::Object(schema))
}

/// The request body of an operation with these parameters.
fn make_request_body(params: &Vec<JsonValue>) -> (request: Option<JsonValue>)
    ensures
        match request {
            Some(body) => request_body(items_view(params@)) == Some(body@),
            None => request_body(items_view(params@)) is None,
        },
{
    let (any, schema) = make_form_schema(params);
    let body = find_body(params);
    let mut request: Vec<Member> = Vec::new();
    let mut content: Vec<Member> = Vec::new();
    assert(members_view(request@) =~= Seq::empty());
    assert(members_view(content@) =~= Seq::empty());
    match body {
        Some(param) => {
            insert_some(&mut request, "description", clone_option(param.get("description")));
            insert_some(&mut request, "required", clone_option(param.get("required")));
            match param.get("schema") {
                Some(declared) => {
                    let media = JsonValue::single("schema", declared.deep_clone());
                    push_member(&mut content, "application/json", media);
                    assert(members_view(content@) =~= seq![
                        ("application/json"@, one("schema"@, declared@)),
                    ]);
                },
                None => {},
            }
        },
        None => {
            if !any {
                return None;
            }
        },
    }
    if any {
        push_member(
            &mut content,
            "application/x-www-form-urlencoded",
            JsonValue::single("schema", schema),
        );
    }
    assert(members_view(content@).len() == content.len());
    if content.len() > 0 {
        insert(&mut request, "content", JsonValue::Object(content));
    }
    Some(JsonValue::Object(request))
}

/// A copy of a tree that may be missing.
fn clone_option(value: Option<&JsonValue>) -> (copy: Option<JsonValue>)
    ensures
        option_view(copy) == match value {
            Some(v) => Some(v@),
            None => None,
        },
{
    match value {
        Some(v) => Some(v.deep_clone()),
        None => None,
    }
}

/// Gives the parameters of an operation of a legacy description the
/// canonical shape: body and form parameters become the request body, the
/// others get schemas, and a parameter list left empty is taken out.
pub fn convert_operation_parameters_v2_to_v3(op: &mut Vec<Member>)
    ensures
        members_view(final(op)@) == converted_operation(members_view(old(op)@)),
{
    let converted = match lookup(op, "parameters") {
        Some(JsonValue::Array(params)) => {
            let kept = keep_parameters(params);
            let request = make_request_body(params);
            Some((kept, request))
        },
        _ => None,
    };
    match converted {
        Some((kept, request)) => {
            let emptied = kept.len() == 0;
            assert(items_view(kept@).len() == kept.len());
            insert(op, "parameters", JsonValue::Array(kept));
            insert_some(op, "requestBody", request);
            if emptied {
                let _ = remove(op, "parameters");
            }
        },
        None => {},
    }
}

// ---------------------------------------------------------------------------
// Paths
// ---------------------------------------------------------------------------
/// A member of a path item: an object is an operation and is converted.
pub open spec fn converted_member(value: Json) -> Json {
    match value {
        Json::Object(op) => Json::Object(converted_operation(op)),
        _ => value,
    }
}

/// The parameters that a path item shares among its operations, each converted.
pub open spec fn converted_shared(members: Seq<(Seq<char>, Json)>) -> Seq<(Seq<char>, Json)> {
    match get(members, "parameters"@) {
        Some(Json::Array(params)) => put(
            members,
            "parameters"@,
            Json::Array(params.map_values(|p: Json| converted_parameter(p))),
        ),
        _ => members,
    }
}

/// A path item with every operation converted and, where `shared` is set,
/// the parameters that it shares among them too.
pub open spec fn converted_path_item(item: Json, shared: bool) -> Json {
    match item {
        Json::Object(members) => {
            let first = if shared {
                converted_shared(members)
            } else {
                members
            };
            Json::Object(first.map_values(|m: (Seq<char>, Json)| (m.0, converted_member(m.1))))
        },
        _ => item,
    }
}

/// The path table with every path item converted.
pub open spec fn converted_paths(paths: Json, shared: bool) -> Json {
    match paths {
        Json::Object(members) => Json::Object(
            members.map_values(|m: (Seq<char>, Json)| (m.0, converted_path_item(m.1, shared))),
        ),
        _ => paths,
    }
}

/// The description with its path table converted.
pub open spec fn with_converted_paths(root: Seq<(Seq<char>, Json)>, shared: bool) -> Seq<
    (Seq<char>, Json),
> {
    match get(root, "paths"@) {
        Some(paths) => put(root, "paths"@, converted_paths(paths, shared)),
        None => root,
    }
}

fn convert_member(value: &JsonValue) -> (out: JsonValue)
    ensures
        out@ == converted_member(value@),
{
    match value {
        JsonValue::Object(op) => {
            let mut converted = clone_members(op);
            convert_operation_parameters_v2_to_v3(&mut converted);
            JsonValue::Object(converted)
        },
        _ => value.deep_clone(),
    }
}

fn convert_shared(members: &mut Vec<Member>)
    ensures
        members_view(final(members)@) == converted_shared(members_view(old(members)@)),
{
    let converted = match lookup(members, "parameters") {
        Some(JsonValue::Array(params)) => {
            let mut out: Vec<JsonValue> = Vec::new();
            let mut i: usize = 0;
            while i < params.len()
                invariant
                    i <= params.len(),
                    out.len() == i,
                    forall|k: int| 0 <= k < i ==> out@[k]@ == converted_parameter(params@[k]@),
                decreases params.len() - i,
            {
                out.push(convert_parameter_v2_to_v3(params[i].deep_clone()));
                i += 1;
            }
            assert(items_view(out@) =~= items_view(params@).map_values(
                |p: Json| converted_parameter(p),
            ));
            Some(out)
        },
        _ => None,
    };
    match converted {
        Some(out) => insert(members, "parameters", JsonValue::Array(out)),
        None => {},
    }
}

fn convert_path_item(item: &JsonValue, shared: bool) -> (out: JsonValue)
    ensures
        out@ == converted_path_item(item@, shared),
{
    match item {
        JsonValue::Object(members) => {
            let mut first = clone_members(members);
            if shared {
                convert_shared(&mut first);
            }
            let ghost model = members_view(first@);
            let mut out: Vec<Member> = Vec::new();
            let mut i: usize = 0;
            while i < first.len()
                invariant
                    i <= first.len(),
                    out.len() == i,
                    model == members_view(first@),
                    forall|k: int|
                        0 <= k < i ==> out@[k].key@ == model[k].0 && out@[k].value@
                            == converted_member(model[k].1),
                decreases first.len() - i,
            {
                let converted = convert_member(&first[i].value);
                out.push(Member { key: first[i].key.clone(), value: converted });
                i += 1;
            }
            assert(members_view(out@) =~= model.map_values(
                |m: (Seq<char>, Json)| (m.0, converted_member(m.1)),
            ));
            JsonValue::Object(out)
        },
        _ => item.deep_clone(),
    }
}

fn convert_paths(paths: &JsonValue, shared: bool) -> (out: JsonValue)
    ensures
        out@ == converted_paths(paths@, shared),
{
    match paths {
        JsonValue::Object(members) => {
            let ghost model = members_view(members@);
            let mut out: Vec<Member> = Vec::new();
            let mut i: usize = 0;
            while i < members.len()
                invariant
                    i <= members.len(),
                    out.len() == i,
                    model == members_view(members@),
                    forall|k: int|
                        0 <= k < i ==> out@[k].key@ == model[k].0 && out@[k].value@
                            == converted_path_item(model[k].1, shared),
                decreases members.len() - i,
            {
                let converted = convert_path_item(&members[i].value, shared);
                out.push(Member { key: members[i].key.clone(), value: converted });
                i += 1;
            }
            assert(members_view(out@) =~= model.map_values(
                |m: (Seq<char>, Json)| (m.0, converted_path_item(m.1, shared)),
            ));
            JsonValue::Object(out)
        },
        _ => paths.deep_clone(),
    }
}

fn convert_root_paths(root: &mut Vec<Member>, shared: bool)
    ensures
        members_view(final(root)@) == with_converted_paths(members_view(old(root)@), shared),
{
    let converted = match lookup(root, "paths") {
        Some(paths) => Some(convert_paths(paths, shared)),
        None => None,
    };
    match converted {
        Some(paths) => insert(root, "paths", paths),
        None => {},
    }
}

// ---------------------------------------------------------------------------
// Servers
// ---------------------------------------------------------------------------
/// The URL of the server of a legacy description: the first declared scheme
/// or `http`, the declared host or `localhost`, and the base path, with a
/// slash before it where it is not empty and does not begin with one.
pub open spec fn server_url(schemes: Option<Json>, host: Option<Json>, base_path: Option<Json>) -> Seq<
    char,
> {
    let scheme = match schemes {
        Some(Json::Array(items)) => if items.len() > 0 {
            match items[0] {
                Json::String(s) => s,
                _ => "http"@,
            }
        } else {
            "http"@
        },
        _ => "http"@,
    };
    let host_name = match host {
        Some(Json::String(h)) => h,
        _ => "localhost"@,
    };
    let path = match base_path {
        Some(Json::String(p)) => p,
        _ => Seq::empty(),
    };
    let slash = if path.len() > 0 && !starts_with(path, "/"@) {
        "/"@
    } else {
        Seq::empty()
    };
    scheme + "://"@ + host_name + slash + path
}

/// The server list that holds the one server at `url`.
pub open spec fn server_list(url: Seq<char>) -> Json {
    Json::Array(seq![one("url"@, Json::String(url))])
}

/// The description without `host`, `basePath` and `schemes`, and with the
/// one server that they name; what is not declared takes its default.
pub open spec fn with_servers(root: Seq<(Seq<char>, Json)>) -> Seq<(Seq<char>, Json)> {
    let host = get(root, "host"@);
    let r1 = del(root, "host"@);
    let base_path = get(r1, "basePath"@);
    let r2 = del(r1, "basePath"@);
    let schemes = get(r2, "schemes"@);
    let r3 = del(r2, "schemes"@);
    put(r3, "servers"@, server_list(server_url(schemes, host, base_path)))
}

pub fn make_server_url(
    schemes: &Option<JsonValue>,
    host: &Option<JsonValue>,
    base_path: &Option<JsonValue>,
) -> (url: String)
    ensures
        url@ == server_url(option_view(*schemes), option_view(*host), option_view(*base_path)),
{
    let scheme: &str = match schemes {
        Some(JsonValue::Array(items)) => {
            assert(items_view(items@).len() == items.len());
            if items.len() > 0 {
                match &items[0] {
                    JsonValue::String(s) => s.as_str(),
                    _ => "http",
                }
            } else {
                "http"
            }
        },
        _ => "http",
    };
    let host_name: &str = match host {
        Some(JsonValue::String(h)) => h.as_str(),
        _ => "localhost",
    };
    let mut url = concat(scheme, "://");
    url.append(host_name);
    match base_path {
        Some(JsonValue::String(p)) => {
            if !p.as_str().is_empty() && !starts_with_text(p.as_str(), "/") {
                url.append("/");
            }
            url.append(p.as_str());
            proof {
                let slash = if p@.len() > 0 && !starts_with(p@, "/"@) {
                    "/"@
                } else {
                    Seq::empty()
                };
                assert(url@ =~= scheme@ + "://"@ + host_name@ + slash + p@);
            }
        },
        _ => {
            assert(url@ =~= scheme@ + "://"@ + host_name@ + Seq::<char>::empty() + Seq::<
                char,
            >::empty());
        },
    }
    url
}

fn convert_servers(root: &mut Vec<Member>)
    ensures
        members_view(final(root)@) == with_servers(members_view(old(root)@)),
{
    let host = remove(root, "host");
    let base_path = remove(root, "basePath");
    let schemes = remove(root, "schemes");
    let url = make_server_url(&schemes, &host, &base_path);
    let server = JsonValue::single("url", JsonValue::String(url));
    let mut servers: Vec<JsonValue> = Vec::new();
    servers.push(server);
    assert(items_view(servers@) =~= seq![one("url"@, Json::String(url@))]);
    insert(root, "servers", JsonValue::Array(servers));
}

// ---------------------------------------------------------------------------
// Components
// ---------------------------------------------------------------------------
/// The description with the table under `legacy` moved into the components
/// as `table`. What `components` held, if it was no object, is replaced.
pub open spec fn moved_to_components(
    root: Seq<(Seq<char>, Json)>,
    legacy: Seq<char>,
    table: Seq<char>,
) -> Seq<(Seq<char>, Json)> {
    match get(root, legacy) {
        Some(entries) => {
            let rest = del(root, legacy);
            let components = match get(rest, "components"@) {
                Some(Json::Object(members)) => members,
                _ => Seq::empty(),
            };
            put(rest, "components"@, Json::Object(put(components, table, entries)))
        },
        None => root,
    }
}

/// The description with its four legacy tables moved into the components.
pub open spec fn with_components(root: Seq<(Seq<char>, Json)>) -> Seq<(Seq<char>, Json)> {
    moved_to_components(
        moved_to_components(
            moved_to_components(
                moved_to_components(root, "definitions"@, "schemas"@),
                "parameters"@,
                "parameters"@,
            ),
            "responses"@,
            "responses"@,
        ),
        "securityDefinitions"@,
        "securitySchemes"@,
    )
}

fn move_to_components(root: &mut Vec<Member>, legacy: &str, table: &str)
    ensures
        members_view(final(root)@) == moved_to_components(
            members_view(old(root)@),
            legacy@,
            table@,
        ),
{
    match remove(root, legacy) {
        Some(entries) => {
            let mut components = match lookup(root, "components") {
                Some(JsonValue::Object(members)) => clone_members(members),
                _ => {
                    let fresh: Vec<Member> = Vec::new();
                    assert(members_view(fresh@) =~= Seq::empty());
                    fresh
                },
            };
            insert(&mut components, table, entries);
            insert(root, "components", JsonValue::Object(components));
        },
        None => {},
    }
}

fn convert_components(root: &mut Vec<Member>)
    ensures
        members_view(final(root)@) == with_components(members_view(old(root)@)),
{
    move_to_components(root, "definitions", "schemas");
    move_to_components(root, "parameters", "parameters");
    move_to_components(root, "responses", "responses");
    move_to_components(root, "securityDefinitions", "securitySchemes");
}

// ---------------------------------------------------------------------------
// References
// ---------------------------------------------------------------------------
/// Where the schemas of a legacy description are referred to.
pub open spec fn legacy_prefix() -> Seq<char> {
    "#/definitions/"@
}

/// Where the schemas of a canonical description are referred to.
pub open spec fn canonical_prefix() -> Seq<char> {
    "#/components/schemas/"@
}

/// A reference pointed at the schemas of the components where it pointed at
/// the legacy definitions: the canonical prefix stands in place of the
/// legacy prefix, and what follows the prefix stays. Any other reference
/// stays as it is.
pub open spec fn repointed(target: Seq<char>) -> Seq<char> {
    if starts_with(target, legacy_prefix()) {
        canonical_prefix() + target.skip(legacy_prefix().len() as int)
    } else {
        target
    }
}

/// The member is a reference that points at the legacy definitions.
pub open spec fn legacy_reference(key: Seq<char>, value: Json) -> bool {
    key == "$ref"@ && value is String && starts_with(value->String_0, legacy_prefix())
}

/// The items of an array, each with its references rewritten.
pub open spec fn rewritten_items(items: Seq<Json>) -> Seq<Json>
    decreases items, 0nat,
{
    Seq::new(
        items.len(),
        |i: int|
            if 0 <= i < items.len() {
                rewritten(items[i])
            } else {
                Json::Null
            },
    )
}

/// The members of an object, each with its references rewritten.
pub open spec fn rewritten_members(members: Seq<(Seq<char>, Json)>) -> Seq<(Seq<char>, Json)>
    decreases members, 0nat,
{
    Seq::new(
        members.len(),
        |i: int|
            if 0 <= i < members.len() {
                if legacy_reference(members[i].0, members[i].1) {
                    (members[i].0, Json::String(repointed(members[i].1->String_0)))
                } else {
                    (members[i].0, rewritten(members[i].1))
                }
            } else {
                (Seq::empty(), Json::Null)
            },
    )
}

/// The tree in which every reference to the legacy definitions, at any
/// depth, points at the schemas of the components instead.
pub open spec fn rewritten(tree: Json) -> Json
    decreases tree, 1nat,
{
    match tree {
        Json::Array(items) => Json::Array(rewritten_items(items)),
        Json::Object(members) => Json::Object(rewritten_members(members)),
        _ => tree,
    }
}

/// No reference in the tree, at any depth, points at the legacy definitions.
pub open spec fn free_of_legacy_references(tree: Json) -> bool
    decreases tree,
{
    match tree {
        Json::Array(items) => forall|i: int|
            0 <= i < items.len() ==> free_of_legacy_references(#[trigger] items[i]),
        Json::Object(members) => forall|i: int|
            0 <= i < members.len() ==> !legacy_reference(
                (#[trigger] members[i]).0,
                members[i].1,
            ) && free_of_legacy_references(members[i].1),
        _ => true,
    }
}

/// No member is a reference to the legacy definitions or holds one, at any
/// depth.
pub open spec fn free_members(members: Seq<(Seq<char>, Json)>) -> bool {
    forall|i: int|
        0 <= i < members.len() ==> !legacy_reference((#[trigger] members[i]).0, members[i].1)
            && free_of_legacy_references(members[i].1)
}

/// An object is free of references to the legacy definitions exactly when
/// its members are.
pub proof fn lemma_free_object(members: Seq<(Seq<char>, Json)>)
    ensures
        free_of_legacy_references(Json::Object(members)) == free_members(members),
{
    assert(Json::Object(members)->Object_0 == members);
}

/// An array is free of references to the legacy definitions exactly when
/// its items are.
pub proof fn lemma_free_array(items: Seq<Json>)
    ensures
        free_of_legacy_references(Json::Array(items)) == (forall|i: int|
            0 <= i < items.len() ==> free_of_legacy_references(#[trigger] items[i])),
{
    assert(Json::Array(items)->Array_0 == items);
}

/// Storing a member that is free of references to the legacy definitions
/// among members that are leaves them so.
pub proof fn lemma_free_put(members: Seq<(Seq<char>, Json)>, key: Seq<char>, value: Json)
    requires
        free_members(members),
        !legacy_reference(key, value),
        free_of_legacy_references(value),
    ensures
        free_members(put(members, key, value)),
        free_members(members.push((key, value))),
{
    crate::json::lemma_position(members, key);
    let after = put(members, key, value);
    assert forall|i: int| 0 <= i < after.len() implies !legacy_reference(
        (#[trigger] after[i]).0,
        after[i].1,
    ) && free_of_legacy_references(after[i].1) by {
        if after[i] != (key, value) {
            assert(after[i] == members[i]);
        }
    }
    let pushed = members.push((key, value));
    assert forall|i: int| 0 <= i < pushed.len() implies !legacy_reference(
        (#[trigger] pushed[i]).0,
        pushed[i].1,
    ) && free_of_legacy_references(pushed[i].1) by {
        if i < members.len() {
            assert(pushed[i] == members[i]);
        }
    }
}

/// A key that does not begin with a dollar sign is not `$ref`.
pub proof fn lemma_plain_key(key: Seq<char>)
    requires
        key.len() > 0,
        key[0] != '$',
    ensures
        key != "$ref"@,
{
    reveal_strlit("$ref");
    assert("$ref"@[0] == '$');
}

/// A repointed reference does not begin with the legacy prefix.
pub proof fn lemma_repointed_never_legacy(target: Seq<char>)
    ensures
        !starts_with(repointed(target), legacy_prefix()),
{
    reveal_strlit("#/definitions/");
    reveal_strlit("#/components/schemas/");
    if starts_with(target, legacy_prefix()) {
        let moved = repointed(target);
        assert(moved[2] == 'c');
        if starts_with(moved, legacy_prefix()) {
            assert(moved.take(legacy_prefix().len() as int)[2] == legacy_prefix()[2]);
        }
    }
}

/// Rewriting is total: what it returns holds no reference to the legacy
/// definitions, at any depth.
pub proof fn lemma_rewritten_is_free(tree: Json)
    ensures
        free_of_legacy_references(rewritten(tree)),
    decreases tree,
{
    match tree {
        Json::Array(items) => {
            let out = rewritten_items(items);
            assert forall|i: int| 0 <= i < out.len() implies free_of_legacy_references(
                #[trigger] out[i],
            ) by {
                lemma_rewritten_is_free(items[i]);
            }
        },
        Json::Object(members) => {
            let out = rewritten_members(members);
            assert forall|i: int| 0 <= i < out.len() implies !legacy_reference(
                (#[trigger] out[i]).0,
                out[i].1,
            ) && free_of_legacy_references(out[i].1) by {
                if legacy_reference(members[i].0, members[i].1) {
                    lemma_repointed_never_legacy(members[i].1->String_0);
                } else {
                    lemma_rewritten_is_free(members[i].1);
                    lemma_rewritten_keeps_kind(members[i].1);
                }
            }
        },
        _ => {},
    }
}

/// Rewriting leaves a text as it is and makes nothing else a text.
pub proof fn lemma_rewritten_keeps_kind(tree: Json)
    ensures
        rewritten(tree) is String <==> tree is String,
        tree is String ==> rewritten(tree) == tree,
{
}

/// Points a reference at the schemas of the components where it points at
/// the legacy definitions.
pub fn repoint(target: &str) -> (moved: String)
    ensures
        moved@ == repointed(target@),
{
    if starts_with_text(target, "#/definitions/") {
        let skipped = "#/definitions/".unicode_len();
        let name = target.substring_char(skipped, target.unicode_len());
        assert(name@ =~= target@.skip(legacy_prefix().len() as int));
        concat("#/components/schemas/", name)
    } else {
        String::from_str(target)
    }
}

/// Points every reference to the legacy definitions, anywhere in the tree,
/// at the schemas of the components.
#[verifier::loop_isolation(false)]
pub fn update_refs(value: &JsonValue) -> (out: JsonValue)
    ensures
        out@ == rewritten(value@),
        free_of_legacy_references(out@),
    decreases value,
{
    proof {
        lemma_rewritten_is_free(value@);
    }
    match value {
        JsonValue::Array(items) => {
            let mut list: Vec<JsonValue> = Vec::new();
            let mut i: usize = 0;
            while i < items.len()
                invariant
                    i <= items.len(),
                    list.len() == i,
                    forall|k: int| 0 <= k < i ==> list@[k]@ == rewritten(items@[k]@),
                decreases items.len() - i,
            {
                assert(decreases_to!(items => items[i as int]));
                let item = update_refs(&items[i]);
                list.push(item);
                i += 1;
            }
            assert(items_view(list@) =~= rewritten_items(items_view(items@)));
            JsonValue::Array(list)
        },
        JsonValue::Object(members) => {
            let ghost model = members_view(members@);
            let mut list: Vec<Member> = Vec::new();
            let mut i: usize = 0;
            while i < members.len()
                invariant
                    i <= members.len(),
                    list.len() == i,
                    forall|k: int|
                        0 <= k < i ==> (list@[k].key@, list@[k].value@) == rewritten_members(
                            model,
                        )[k],
                decreases members.len() - i,
            {
                assert(decreases_to!(members => members[i as int]));
                let member = &members[i];
                let legacy = match &member.value {
                    JsonValue::String(target) => {
                        if text_eq(member.key.as_str(), "$ref") && starts_with_text(
                            target.as_str(),
                            "#/definitions/",
                        ) {
                            Some(target)
                        } else {
                            None
                        }
                    },
                    _ => None,
                };
                let updated = match legacy {
                    Some(target) => JsonValue::String(repoint(target.as_str())),
                    None => update_refs(&member.value),
                };
                list.push(Member { key: member.key.clone(), value: updated });
                i += 1;
            }
            assert(members_view(list@) =~= rewritten_members(model));
            JsonValue::Object(list)
        },
        _ => value.deep_clone(),
    }
}

// ---------------------------------------------------------------------------
// Whole descriptions
// ---------------------------------------------------------------------------
/// The members of a legacy description in the canonical shape: the version
/// marker is replaced, the server is computed, the operations are converted
/// (with the parameters that path items share, where `shared` is set), the
/// legacy tables are moved into the components, the references are rewritten
/// and the legacy fields that are left are dropped.
pub open spec fn upgraded(root: Seq<(Seq<char>, Json)>, shared: bool) -> Seq<(Seq<char>, Json)> {
    let marked = put(del(root, "swagger"@), "openapi"@, Json::String("3.0.0"@));
    let tabled = with_components(with_converted_paths(with_servers(marked), shared));
    let turned = rewritten_members(tabled);
    del(del(del(turned, "securityDefinitions"@), "consumes"@), "produces"@)
}

/// A legacy description in the canonical shape, or the refusal of a root that
/// is no object.
pub open spec fn upgraded_tree(spec: Json, shared: bool) -> Result<Json, ErrorView> {
    match spec {
        Json::Object(root) => Ok(Json::Object(upgraded(root, shared))),
        _ => Err(ErrorView::InvalidSpecification),
    }
}

/// The version that a description declares: under `swagger`, else under
/// `specVersion`.
pub open spec fn declared_version(root: Seq<(Seq<char>, Json)>) -> Option<Json> {
    match get(root, "swagger"@) {
        Some(version) => Some(version),
        None => get(root, "specVersion"@),
    }
}

/// The members of a description that was read permissively, in the canonical
/// shape: its version member is taken out and, where it declared version
/// `2.0`, it is converted as a legacy description is, but for its references.
pub open spec fn respecified(root: Seq<(Seq<char>, Json)>) -> Seq<(Seq<char>, Json)> {
    let stripped = if has(root, "swagger"@) {
        del(root, "swagger"@)
    } else {
        del(root, "specVersion"@)
    };
    if declared_version(root) == Some(Json::String("2.0"@)) {
        let marked = put(stripped, "openapi"@, Json::String("3.0.0"@));
        let tabled = with_components(with_converted_paths(with_servers(marked), false));
        del(del(tabled, "consumes"@), "produces"@)
    } else {
        stripped
    }
}

/// A description that was read permissively, in the canonical shape. What is
/// no object stays as it is.
pub open spec fn respecified_tree(spec: Json) -> Json {
    match spec {
        Json::Object(root) => Json::Object(respecified(root)),
        _ => spec,
    }
}

/// A rewritten description holds no reference to the legacy definitions, at
/// any depth.
pub proof fn lemma_upgraded_is_free(root: Seq<(Seq<char>, Json)>, shared: bool)
    ensures
        free_of_legacy_references(Json::Object(upgraded(root, shared))),
{
    let marked = put(del(root, "swagger"@), "openapi"@, Json::String("3.0.0"@));
    let tabled = with_components(with_converted_paths(with_servers(marked), shared));
    lemma_rewritten_is_free(Json::Object(tabled));
    let turned = rewritten_members(tabled);
    lemma_free_without(turned, "securityDefinitions"@);
    let d1 = del(turned, "securityDefinitions"@);
    lemma_free_without(d1, "consumes"@);
    lemma_free_without(del(d1, "consumes"@), "produces"@);
}

/// Taking a member out leaves no reference to the legacy definitions where
/// there was none.
pub proof fn lemma_free_without(members: Seq<(Seq<char>, Json)>, key: Seq<char>)
    requires
        free_of_legacy_references(Json::Object(members)),
    ensures
        free_of_legacy_references(Json::Object(del(members, key))),
{
    crate::json::lemma_position(members, key);
    assert(Json::Object(members)->Object_0 == members);
    assert(forall|i: int|
        0 <= i < members.len() ==> !legacy_reference((#[trigger] members[i]).0, members[i].1)
            && free_of_legacy_references(members[i].1));
    match crate::json::position(members, key) {
        Some(at) => {
            let left = members.remove(at);
            assert forall|i: int| 0 <= i < left.len() implies !legacy_reference(
                (#[trigger] left[i]).0,
                left[i].1,
            ) && free_of_legacy_references(left[i].1) by {
                let j = if i < at {
                    i
                } else {
                    i + 1
                };
                assert(left[i] == members[j]);
            }
            assert(free_of_legacy_references(Json::Object(left)));
        },
        None => {},
    }
}

/// Rewrites a legacy description tree into the canonical shape. With
/// `shared`, the parameters that a path item shares among its operations are
/// converted too.
pub fn upgrade_tree(spec: &JsonValue, shared: bool) -> (out: Result<JsonValue, CurlGeneratorError>)
    ensures
        match out {
            Ok(tree) => upgraded_tree(spec@, shared) == Ok::<Json, ErrorView>(tree@)
                && free_of_legacy_references(tree@),
            Err(error) => upgraded_tree(spec@, shared) == Err::<Json, ErrorView>(error@),
        },
{
    match spec {
        JsonValue::Object(members) => {
            let mut root = clone_members(members);
            let _ = remove(&mut root, "swagger");
            insert(&mut root, "openapi", JsonValue::string("3.0.0"));
            convert_servers(&mut root);
            convert_root_paths(&mut root, shared);
            convert_components(&mut root);
            let turned = update_refs(&JsonValue::Object(root));
            match turned {
                JsonValue::Object(members) => {
                    let mut root = members;
                    proof {
                        let m0 = members_view(root@);
                        lemma_free_without(m0, "securityDefinitions"@);
                        let m1 = del(m0, "securityDefinitions"@);
                        lemma_free_without(m1, "consumes"@);
                        lemma_free_without(del(m1, "consumes"@), "produces"@);
                    }
                    let _ = remove(&mut root, "securityDefinitions");
                    let _ = remove(&mut root, "consumes");
                    let _ = remove(&mut root, "produces");
                    Ok(JsonValue::Object(root))
                },
                _ => Err(CurlGeneratorError::InvalidSpecification),
            }
        },
        _ => Err(CurlGeneratorError::InvalidSpecification),
    }
}

/// Gives a description that was read permissively the canonical shape.
pub fn respecify_tree(spec: &JsonValue) -> (out: JsonValue)
    ensures
        out@ == respecified_tree(spec@),
{
    match spec {
        JsonValue::Object(members) => {
            let mut root = clone_members(members);
            let version = match remove(&mut root, "swagger") {
                Some(version) => Some(version),
                None => remove(&mut root, "specVersion"),
            };
            let legacy = match &version {
                Some(JsonValue::String(text)) => text_eq(text.as_str(), "2.0"),
                _ => false,
            };
            if legacy {
                insert(&mut root, "openapi", JsonValue::string("3.0.0"));
                convert_servers(&mut root);
                convert_root_paths(&mut root, false);
                convert_components(&mut root);
                let _ = remove(&mut root, "consumes");
                let _ = remove(&mut root, "produces");
            }
            JsonValue::Object(root)
        },
        _ => spec.deep_clone(),
    }
}

// ---------------------------------------------------------------------------
// What conversion guarantees
// ---------------------------------------------------------------------------
/// The schema that a request body declares for a media type.
pub open spec fn request_schema(request: Json, media: Seq<char>) -> Option<Json> {
    match request.get("content"@) {
        Some(content) => match content.get(media) {
            Some(entry) => entry.get("schema"@),
            None => None,
        },
        None => None,
    }
}

/// The names that a schema lists as required; none where it has no list.
pub open spec fn required_list(schema: Json) -> Seq<Json> {
    match schema.get("required"@) {
        Some(Json::Array(names)) => names,
        _ => Seq::empty(),
    }
}

/// Moving a member under one key leaves what is found under another.
proof fn lemma_moved_keeps(
    from: Seq<(Seq<char>, Json)>,
    to: Seq<(Seq<char>, Json)>,
    key: Seq<char>,
    other: Seq<char>,
)
    requires
        other != key,
    ensures
        get(moved(from, to, key).0, other) == get(from, other),
{
    lemma_get_del(from, key, other);
}

/// Conversion leaves the location that a parameter names.
pub proof fn lemma_converted_keeps_location(param: Json)
    ensures
        converted_parameter(param).get_str("in"@) == param.get_str("in"@),
        converted_parameter(param) is Object <==> param is Object,
{
    reveal_strlit("in");
    reveal_strlit("type");
    reveal_strlit("format");
    reveal_strlit("items");
    reveal_strlit("collectionFormat");
    reveal_strlit("default");
    reveal_strlit("enum");
    reveal_strlit("minimum");
    reveal_strlit("maximum");
    reveal_strlit("minLength");
    reveal_strlit("maxLength");
    reveal_strlit("pattern");
    reveal_strlit("schema");
    lemma_lengths_differ("in"@, "type"@);
    lemma_lengths_differ("in"@, "format"@);
    lemma_lengths_differ("in"@, "items"@);
    lemma_lengths_differ("in"@, "collectionFormat"@);
    lemma_lengths_differ("in"@, "default"@);
    lemma_lengths_differ("in"@, "enum"@);
    lemma_lengths_differ("in"@, "minimum"@);
    lemma_lengths_differ("in"@, "maximum"@);
    lemma_lengths_differ("in"@, "minLength"@);
    lemma_lengths_differ("in"@, "maxLength"@);
    lemma_lengths_differ("in"@, "pattern"@);
    lemma_lengths_differ("in"@, "schema"@);
    match param {
        Json::Object(members) => {
            let place = "in"@;
            if has(members, "schema"@) || has(members, "content"@) {
            } else if has(members, "type"@) {
                let s1 = moved(members, Seq::empty(), "type"@);
                lemma_moved_keeps(members, Seq::empty(), "type"@, place);
                let s2 = moved(s1.0, s1.1, "format"@);
                lemma_moved_keeps(s1.0, s1.1, "format"@, place);
                let s3 = moved(s2.0, s2.1, "items"@);
                lemma_moved_keeps(s2.0, s2.1, "items"@, place);
                let dropped = del(s3.0, "collectionFormat"@);
                lemma_get_del(s3.0, "collectionFormat"@, place);
                let s4 = moved(dropped, s3.1, "default"@);
                lemma_moved_keeps(dropped, s3.1, "default"@, place);
                let s5 = moved(s4.0, s4.1, "enum"@);
                lemma_moved_keeps(s4.0, s4.1, "enum"@, place);
                let s6 = moved(s5.0, s5.1, "minimum"@);
                lemma_moved_keeps(s5.0, s5.1, "minimum"@, place);
                let s7 = moved(s6.0, s6.1, "maximum"@);
                lemma_moved_keeps(s6.0, s6.1, "maximum"@, place);
                let s8 = moved(s7.0, s7.1, "minLength"@);
                lemma_moved_keeps(s7.0, s7.1, "minLength"@, place);
                let s9 = moved(s8.0, s8.1, "maxLength"@);
                lemma_moved_keeps(s8.0, s8.1, "maxLength"@, place);
                let s10 = moved(s9.0, s9.1, "pattern"@);
                lemma_moved_keeps(s9.0, s9.1, "pattern"@, place);
                lemma_get_put(s10.0, "schema"@, Json::Object(s10.1), place);
            } else {
                lemma_get_put(members, "schema"@, string_schema(), place);
            }
        },
        _ => {},
    }
}

/// No kept parameter is in the body or the form location.
pub proof fn lemma_kept_are_elsewhere(params: Seq<Json>)
    ensures
        forall|i: int|
            0 <= i < kept_parameters(params).len() ==> !located(
                #[trigger] kept_parameters(params)[i],
                "body"@,
            ) && !located(kept_parameters(params)[i], "formData"@),
    decreases params.len(),
{
    if params.len() > 0 {
        let p = params.last();
        let before = kept_parameters(params.drop_last());
        let kept = kept_parameters(params);
        lemma_kept_are_elsewhere(params.drop_last());
        lemma_converted_keeps_location(p);
        assert forall|i: int| 0 <= i < kept.len() implies !located(#[trigger] kept[i], "body"@)
            && !located(kept[i], "formData"@) by {
            if i < before.len() {
                assert(kept[i] == before[i]);
            } else {
                assert(kept[i] == converted_parameter(p));
            }
        }
    }
}

/// The one request body declares, for `application/json`, the schema of the
/// body parameter (none where there is none) and, where there are form
/// parameters, for `application/x-www-form-urlencoded` the form schema.
pub proof fn lemma_request_schemas(params: Seq<Json>)
    requires
        request_body(params) is Some,
    ensures
        request_schema(request_body(params)->0, "application/json"@) == body_schema(params),
        any_form(params) ==> request_schema(
            request_body(params)->0,
            "application/x-www-form-urlencoded"@,
        ) == Some(form_schema(params)),
{
    reveal_strlit("description");
    reveal_strlit("required");
    reveal_strlit("content");
    reveal_strlit("application/json");
    reveal_strlit("application/x-www-form-urlencoded");
    let json_key = "application/json"@;
    let form_key = "application/x-www-form-urlencoded"@;
    assert("content"@.len() == 7 && "description"@.len() == 11 && "required"@.len() == 8);
    assert(json_key.len() == 16 && form_key.len() == 33);
    let described = match body_parameter(params) {
        Some(body) => body_described(body),
        None => Seq::empty(),
    };
    // The description and the required flag are no content.
    crate::json::lemma_position(Seq::empty(), "content"@);
    match body_parameter(params) {
        Some(body) => {
            let d1 = put_some(Seq::empty(), "description"@, body.get("description"@));
            if body.get("description"@) is Some {
                lemma_get_put(Seq::empty(), "description"@, body.get("description"@)->0, "content"@);
            }
            if body.get("required"@) is Some {
                lemma_get_put(d1, "required"@, body.get("required"@)->0, "content"@);
            }
        },
        None => {},
    }
    assert(get(described, "content"@) is None);
    let content = request_content(params);
    if content.len() > 0 {
        lemma_get_put(described, "content"@, Json::Object(content), "content"@);
    }
    let form_entry = (form_key, one("schema"@, form_schema(params)));
    crate::json::lemma_position_at(seq![("schema"@, form_schema(params))], "schema"@, 0);
    match body_schema(params) {
        Some(schema) => {
            let json_entry = (json_key, one("schema"@, schema));
            crate::json::lemma_position_at(seq![("schema"@, schema)], "schema"@, 0);
            crate::json::lemma_position_at(content, json_key, 0);
            if any_form(params) {
                assert(content[1] == form_entry);
                crate::json::lemma_position_at(content, form_key, 1);
            }
        },
        None => {
            if any_form(params) {
                assert(content[0] == form_entry);
                crate::json::lemma_position_at(content, form_key, 0);
                crate::json::lemma_position_none(content, json_key);
            } else {
                crate::json::lemma_position(Seq::empty(), json_key);
            }
        },
    }
}

/// Of an operation with a parameter in the body location, with form
/// parameters beside it or without: once converted, none of its parameters
/// is in the body location, and it has one request body whose
/// `application/json` schema is the schema of the body parameter.
pub proof fn law_body_parameter_becomes_request_body(
    op: Seq<(Seq<char>, Json)>,
    params: Seq<Json>,
)
    requires
        distinct_keys(op),
        get(op, "parameters"@) == Some(Json::Array(params)),
        body_parameter(params) is Some,
    ensures
        match get(converted_operation(op), "parameters"@) {
            Some(Json::Array(kept)) => forall|i: int|
                0 <= i < kept.len() ==> !located(#[trigger] kept[i], "body"@),
            Some(_) => false,
            None => true,
        },
        get(converted_operation(op), "requestBody"@) == request_body(params),
        get(converted_operation(op), "requestBody"@) is Some,
        request_schema(get(converted_operation(op), "requestBody"@)->0, "application/json"@)
            == body_parameter(params)->0.get("schema"@),
{
    reveal_strlit("parameters");
    reveal_strlit("requestBody");
    lemma_lengths_differ("parameters"@, "requestBody"@);
    let request = request_body(params)->0;
    let kept = kept_parameters(params);
    let listed = put(op, "parameters"@, Json::Array(kept));
    let bodied = put(listed, "requestBody"@, request);
    lemma_kept_are_elsewhere(params);
    lemma_get_put(op, "parameters"@, Json::Array(kept), "parameters"@);
    lemma_get_put(listed, "requestBody"@, request, "parameters"@);
    lemma_get_put(listed, "requestBody"@, request, "requestBody"@);
    lemma_get_del(bodied, "parameters"@, "requestBody"@);
    lemma_put_keeps_distinct(op, "parameters"@, Json::Array(kept));
    lemma_put_keeps_distinct(listed, "requestBody"@, request);
    lemma_get_del(bodied, "parameters"@, "parameters"@);
    lemma_request_schemas(params);
}

/// Storing a value leaves the keys distinct.
pub proof fn lemma_put_keeps_distinct(
    members: Seq<(Seq<char>, Json)>,
    key: Seq<char>,
    value: Json,
)
    requires
        distinct_keys(members),
    ensures
        distinct_keys(put(members, key, value)),
{
    crate::json::lemma_position(members, key);
    let after = put(members, key, value);
    assert forall|i: int, j: int| 0 <= i < j < after.len() implies (#[trigger] after[i]).0 != (
    #[trigger] after[j]).0 by {
        if j < members.len() {
            assert(after[i].0 == members[i].0);
            assert(after[j].0 == members[j].0);
        } else {
            assert(after[i].0 == members[i].0);
        }
    }
}

/// A name is in the list of the required form names exactly when a form
/// parameter of that name is marked required.
pub proof fn lemma_form_required_names(params: Seq<Json>, name: Seq<char>)
    ensures
        form_required(params).contains(Json::String(name)) <==> exists|i: int|
            0 <= i < params.len() && required_form(#[trigger] params[i]) && params[i].get_str(
                "name"@,
            ) == Some(name),
    decreases params.len(),
{
    if params.len() > 0 {
        let front = params.drop_last();
        let p = params.last();
        lemma_form_required_names(front, name);
        let before = form_required(front);
        let named = required_form(p) && p.get_str("name"@) == Some(name);
        if form_required(params).contains(Json::String(name)) {
            let at = choose|k: int|
                0 <= k < form_required(params).len() && form_required(params)[k] == Json::String(
                    name,
                );
            if at < before.len() {
                assert(before[at] == Json::String(name));
                assert(before.contains(Json::String(name)));
                let i = choose|i: int|
                    0 <= i < front.len() && required_form(#[trigger] front[i]) && front[i].get_str(
                        "name"@,
                    ) == Some(name);
                assert(params[i] == front[i]);
            } else {
                assert(named);
                assert(params[params.len() - 1] == p);
            }
        }
        if exists|i: int|
            0 <= i < params.len() && required_form(#[trigger] params[i]) && params[i].get_str(
                "name"@,
            ) == Some(name) {
            let i = choose|i: int|
                0 <= i < params.len() && required_form(#[trigger] params[i]) && params[i].get_str(
                    "name"@,
                ) == Some(name);
            if i < front.len() {
                assert(front[i] == params[i]);
                assert(before.contains(Json::String(name)));
                let k = choose|k: int| 0 <= k < before.len() && before[k] == Json::String(name);
                assert(form_required(params)[k] == Json::String(name));
            } else {
                assert(form_required(params) == before.push(Json::String(name)));
                assert(form_required(params)[before.len() as int] == Json::String(name));
            }
        }
    }
}

/// Of an operation with parameters in the form location: once converted, it
/// has a request body whose `application/x-www-form-urlencoded` schema lists
/// as required exactly the names of the form parameters that were marked
/// required, in their order.
pub proof fn law_form_parameters_list_required_names(
    op: Seq<(Seq<char>, Json)>,
    params: Seq<Json>,
)
    requires
        get(op, "parameters"@) == Some(Json::Array(params)),
        any_form(params),
    ensures
        get(converted_operation(op), "requestBody"@) is Some,
        request_schema(
            get(converted_operation(op), "requestBody"@)->0,
            "application/x-www-form-urlencoded"@,
        ) == Some(form_schema(params)),
        required_list(form_schema(params)) == form_required(params),
        forall|name: Seq<char>|
            #[trigger] required_list(form_schema(params)).contains(Json::String(name))
                <==> exists|i: int|
                0 <= i < params.len() && required_form(#[trigger] params[i])
                    && params[i].get_str("name"@) == Some(name),
{
    reveal_strlit("parameters");
    reveal_strlit("requestBody");
    reveal_strlit("type");
    reveal_strlit("properties");
    reveal_strlit("required");
    lemma_lengths_differ("parameters"@, "requestBody"@);
    lemma_lengths_differ("type"@, "required"@);
    lemma_lengths_differ("required"@, "properties"@);
    let request = request_body(params)->0;
    let kept = kept_parameters(params);
    let listed = put(op, "parameters"@, Json::Array(kept));
    let bodied = put(listed, "requestBody"@, request);
    lemma_get_put(listed, "requestBody"@, request, "requestBody"@);
    lemma_get_del(bodied, "parameters"@, "requestBody"@);
    lemma_request_schemas(params);
    let typed = seq![
        ("type"@, Json::String("object"@)),
        ("properties"@, Json::Object(form_properties(params))),
    ];
    if form_required(params).len() > 0 {
        let full = typed.push(("required"@, Json::Array(form_required(params))));
        crate::json::lemma_position_at(full, "required"@, 2);
    } else {
        crate::json::lemma_position_none(typed, "required"@);
    }
    assert forall|name: Seq<char>| #[trigger]
        required_list(form_schema(params)).contains(Json::String(name)) <==> exists|i: int|
            0 <= i < params.len() && required_form(#[trigger] params[i]) && params[i].get_str(
                "name"@,
            ) == Some(name) by {
        lemma_form_required_names(params, name);
    }
}

} // verus!

