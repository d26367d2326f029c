use curlgenerator::convert::{
    convert_operation_parameters_v2_to_v3, convert_parameter_v2_to_v3, respecify_tree,
    update_refs, upgrade_tree,
};
use curlgenerator::error::CurlGeneratorError;
use curlgenerator::interop::{parse_json, to_text};
use curlgenerator::json::{insert, remove, JsonValue, Member};

fn tree(text: &str) -> JsonValue {
    parse_json(text).unwrap()
}

fn members(text: &str) -> Vec<Member> {
    match tree(text) {
        JsonValue::Object(members) => members,
        _ => panic!("not an object"),
    }
}

fn converted_operation(text: &str) -> JsonValue {
    let mut op = members(text);
    convert_operation_parameters_v2_to_v3(&mut op);
    JsonValue::Object(op)
}

#[test]
fn a_typed_parameter_gets_a_schema_of_its_typing_members() {
    let param = tree(
        r##"{"name":"limit","in":"query","type":"integer","format":"int32","collectionFormat":"csv",
            "default":10,"enum":[10,20],"minimum":1,"maximum":100,"minLength":1,"maxLength":3,
            "pattern":"x","items":{"type":"string"},"description":"d"}"##,
    );
    let expected = tree(
        r##"{"name":"limit","in":"query","description":"d",
            "schema":{"type":"integer","format":"int32","items":{"type":"string"},"default":10,
                      "enum":[10,20],"minimum":1,"maximum":100,"minLength":1,"maxLength":3,
                      "pattern":"x"}}"##,
    );
    assert_eq!(convert_parameter_v2_to_v3(param), expected);
}

#[test]
fn a_parameter_with_schema_or_content_passes_unchanged() {
    let with_schema = r##"{"name":"a","in":"query","type":"string","schema":{"type":"integer"}}"##;
    assert_eq!(convert_parameter_v2_to_v3(tree(with_schema)), tree(with_schema));
    let with_content = r##"{"name":"a","in":"query","type":"string","content":{}}"##;
    assert_eq!(convert_parameter_v2_to_v3(tree(with_content)), tree(with_content));
}

#[test]
fn a_parameter_without_type_gets_a_string_schema() {
    let param = tree(r##"{"name":"a","in":"header","format":"uuid"}"##);
    let expected =
        tree(r##"{"name":"a","in":"header","format":"uuid","schema":{"type":"string"}}"##);
    assert_eq!(convert_parameter_v2_to_v3(param), expected);
    assert_eq!(convert_parameter_v2_to_v3(tree("[1]")), tree("[1]"));
    assert_eq!(convert_parameter_v2_to_v3(tree("\"x\"")), tree("\"x\""));
}

#[test]
fn a_body_parameter_becomes_the_json_request_body() {
    let op = converted_operation(
        r##"{"operationId":"addPet","parameters":[
              {"name":"id","in":"path","required":true,"type":"string"},
              {"name":"body","in":"body","description":"The pet","required":true,
               "schema":{"$ref":"#/definitions/Pet"}}]}"##,
    );
    let expected = tree(
        r##"{"operationId":"addPet","parameters":[
              {"name":"id","in":"path","required":true,"schema":{"type":"string"}}],
            "requestBody":{"description":"The pet","required":true,
              "content":{"application/json":{"schema":{"$ref":"#/definitions/Pet"}}}}}"##,
    );
    assert_eq!(op, expected);
}

#[test]
fn a_parameter_list_that_partitioning_empties_is_removed() {
    let op = converted_operation(
        r##"{"parameters":[{"name":"body","in":"body","schema":{"type":"object"}}],"tags":["a"]}"##,
    );
    let expected = tree(
        r##"{"tags":["a"],
            "requestBody":{"content":{"application/json":{"schema":{"type":"object"}}}}}"##,
    );
    assert_eq!(op, expected);
    assert_eq!(converted_operation(r##"{"parameters":[]}"##), tree("{}"));
    assert_eq!(converted_operation(r##"{"summary":"s"}"##), tree(r##"{"summary":"s"}"##));
    assert_eq!(converted_operation(r##"{"parameters":"none"}"##), tree(r##"{"parameters":"none"}"##));
}

#[test]
fn form_parameters_merge_into_one_urlencoded_request_body() {
    let op = converted_operation(
        r##"{"parameters":[
              {"name":"name","in":"formData","type":"string","description":"Pet name","required":true},
              {"name":"q","in":"query","type":"string"},
              {"name":"age","in":"formData","type":"integer","format":"int32"},
              {"name":"status","in":"formData","type":"string","required":true},
              {"in":"formData","type":"string","required":true},
              {"name":"flag","in":"formData","required":"yes"}]}"##,
    );
    let expected = tree(
        r##"{"parameters":[{"name":"q","in":"query","schema":{"type":"string"}}],
            "requestBody":{"content":{"application/x-www-form-urlencoded":{"schema":{
              "type":"object",
              "properties":{
                "name":{"type":"string","description":"Pet name"},
                "age":{"type":"integer","format":"int32"},
                "status":{"type":"string"},
                "flag":{}},
              "required":["name","status"]}}}}}"##,
    );
    assert_eq!(op, expected);
}

#[test]
fn form_parameters_without_required_ones_list_none() {
    let op = converted_operation(
        r##"{"parameters":[{"name":"file","in":"formData","type":"file"}]}"##,
    );
    let expected = tree(
        r##"{"requestBody":{"content":{"application/x-www-form-urlencoded":{"schema":{
              "type":"object","properties":{"file":{"type":"file"}}}}}}}"##,
    );
    assert_eq!(op, expected);
}

#[test]
fn body_and_form_parameters_share_one_request_body() {
    let op = converted_operation(
        r##"{"parameters":[
              {"name":"body","in":"body","description":"the pet","required":true,
               "schema":{"type":"object"}},
              {"name":"a","in":"formData","type":"string"}]}"##,
    );
    let expected = tree(
        r##"{"requestBody":{"description":"the pet","required":true,"content":{
              "application/json":{"schema":{"type":"object"}},
              "application/x-www-form-urlencoded":{"schema":{
                "type":"object","properties":{"a":{"type":"string"}}}}}}}"##,
    );
    assert_eq!(op, expected);
}

#[test]
fn form_parameters_before_a_body_parameter_share_its_request_body() {
    let op = converted_operation(
        r##"{"parameters":[
              {"name":"a","in":"formData","type":"string","required":true},
              {"name":"body","in":"body","schema":{"$ref":"#/definitions/Pet"}}]}"##,
    );
    let expected = tree(
        r##"{"requestBody":{"content":{
              "application/json":{"schema":{"$ref":"#/definitions/Pet"}},
              "application/x-www-form-urlencoded":{"schema":{
                "type":"object","properties":{"a":{"type":"string"}},"required":["a"]}}}}}"##,
    );
    assert_eq!(op, expected);
}

#[test]
fn a_body_parameter_without_a_schema_gives_a_request_body_without_content() {
    let op = converted_operation(
        r##"{"parameters":[{"name":"body","in":"body","description":"raw"}]}"##,
    );
    assert_eq!(op, tree(r##"{"requestBody":{"description":"raw"}}"##));
}

#[test]
fn every_object_that_is_left_among_the_parameters_is_converted() {
    let op = converted_operation(
        r##"{"parameters":[7,{"name":"y"},{"name":"x","in":5,"type":"string"},
              {"name":"z","type":"integer","schema":{"type":"string"}}]}"##,
    );
    let expected = tree(
        r##"{"parameters":[{"name":"y","schema":{"type":"string"}},
              {"name":"x","in":5,"schema":{"type":"string"}},
              {"name":"z","type":"integer","schema":{"type":"string"}}]}"##,
    );
    assert_eq!(op, expected);
}

#[test]
fn references_to_definitions_are_rewritten_at_every_depth() {
    let before = tree(
        r##"{"a":{"$ref":"#/definitions/Pet"},
             "b":[{"items":{"$ref":"#/definitions/Tag"}},{"$ref":"#/definitions/a#/definitions/b"}],
             "c":{"$ref":"#/parameters/limit"},
             "d":{"$ref":"x#/definitions/Pet"},
             "e":{"$ref":7},
             "description":"#/definitions/Pet",
             "f":{"$ref":{"$ref":"#/definitions/Deep"}}}"##,
    );
    let after = tree(
        r##"{"a":{"$ref":"#/components/schemas/Pet"},
             "b":[{"items":{"$ref":"#/components/schemas/Tag"}},
                  {"$ref":"#/components/schemas/a#/definitions/b"}],
             "c":{"$ref":"#/parameters/limit"},
             "d":{"$ref":"x#/definitions/Pet"},
             "e":{"$ref":7},
             "description":"#/definitions/Pet",
             "f":{"$ref":{"$ref":"#/components/schemas/Deep"}}}"##,
    );
    assert_eq!(update_refs(&before), after);
    assert_eq!(update_refs(&tree("3")), tree("3"));
}

#[test]
fn a_legacy_description_is_rewritten_into_the_canonical_shape() {
    let legacy = tree(
        r##"{"swagger":"2.0",
             "info":{"title":"Pets","version":"1.0"},
             "host":"api.example.com","basePath":"v1","schemes":["https","http"],
             "consumes":["application/json"],"produces":["application/json"],
             "paths":{"/pets/{id}":{
                "parameters":[{"name":"id","in":"path","required":true,"type":"integer"}],
                "get":{"operationId":"getPet","responses":{"200":{"description":"ok",
                       "schema":{"$ref":"#/definitions/Pet"}}}},
                "post":{"parameters":[{"name":"pet","in":"body",
                        "schema":{"$ref":"#/definitions/Pet"}}]}}},
             "definitions":{"Pet":{"type":"object"}},
             "parameters":{"limit":{"name":"limit","in":"query","type":"integer"}},
             "responses":{"NotFound":{"description":"none"}},
             "securityDefinitions":{"key":{"type":"apiKey","name":"k","in":"header"}}}"##,
    );
    let plain = tree(
        r##"{"info":{"title":"Pets","version":"1.0"},
             "paths":{"/pets/{id}":{
                "parameters":[{"name":"id","in":"path","required":true,"type":"integer"}],
                "get":{"operationId":"getPet","responses":{"200":{"description":"ok",
                       "schema":{"$ref":"#/components/schemas/Pet"}}}},
                "post":{"requestBody":{"content":{"application/json":{
                        "schema":{"$ref":"#/components/schemas/Pet"}}}}}}},
             "openapi":"3.0.0",
             "servers":[{"url":"https://api.example.com/v1"}],
             "components":{"schemas":{"Pet":{"type":"object"}},
                           "parameters":{"limit":{"name":"limit","in":"query","type":"integer"}},
                           "responses":{"NotFound":{"description":"none"}},
                           "securitySchemes":{"key":{"type":"apiKey","name":"k","in":"header"}}}}"##,
    );
    assert_eq!(upgrade_tree(&legacy, false), Ok(plain));
    let shared = upgrade_tree(&legacy, true).unwrap();
    let item = shared.get("paths").unwrap().get("/pets/{id}").unwrap();
    assert_eq!(
        item.get("parameters"),
        Some(&tree(r##"[{"name":"id","in":"path","required":true,"schema":{"type":"integer"}}]"##))
    );
    assert!(!to_text(&shared).contains("#/definitions/"));
}

#[test]
fn the_server_url_takes_defaults_for_what_is_missing() {
    let url_of = |text: &str| -> Option<String> {
        let upgraded = upgrade_tree(&tree(text), false).unwrap();
        match upgraded.get("servers") {
            Some(JsonValue::Array(servers)) => servers[0].get_str("url").map(String::from),
            _ => None,
        }
    };
    assert_eq!(url_of(r##"{"swagger":"2.0"}"##), Some("http://localhost".to_string()));
    assert_eq!(url_of(r##"{"host":"h.example"}"##), Some("http://h.example".to_string()));
    assert_eq!(url_of(r##"{"basePath":"/v2"}"##), Some("http://localhost/v2".to_string()));
    assert_eq!(url_of(r##"{"basePath":"v2"}"##), Some("http://localhost/v2".to_string()));
    assert_eq!(url_of(r##"{"basePath":""}"##), Some("http://localhost".to_string()));
    assert_eq!(url_of(r##"{"schemes":["wss"]}"##), Some("wss://localhost".to_string()));
    assert_eq!(url_of(r##"{"schemes":[]}"##), Some("http://localhost".to_string()));
    assert_eq!(url_of(r##"{"schemes":[7],"host":8,"basePath":9}"##), Some("http://localhost".to_string()));
    assert_eq!(
        url_of(r##"{"host":"api.example.com","basePath":"/v1"}"##),
        Some("http://api.example.com/v1".to_string())
    );
}

#[test]
fn a_root_that_is_no_object_is_an_invalid_specification() {
    assert_eq!(upgrade_tree(&tree("[]"), true), Err(CurlGeneratorError::InvalidSpecification));
    assert_eq!(upgrade_tree(&tree("\"2.0\""), false), Err(CurlGeneratorError::InvalidSpecification));
}

#[test]
fn components_that_are_no_object_are_replaced() {
    let upgraded = upgrade_tree(
        &tree(r##"{"components":7,"definitions":{"A":{}},"responses":{"B":{}}}"##),
        false,
    );
    let expected =
        tree(r##"{"components":{"schemas":{"A":{}},"responses":{"B":{}}},"openapi":"3.0.0",
                  "servers":[{"url":"http://localhost"}]}"##);
    assert_eq!(upgraded, Ok(expected));
}

#[test]
fn a_reread_description_is_converted_only_for_version_two() {
    let legacy = tree(
        r##"{"specVersion":"2.0","host":"h","definitions":{"A":{"$ref":"#/definitions/B"}},
             "consumes":["x"],"paths":{"/a":{"get":{"parameters":[{"name":"n","in":"query"}]}}}}"##,
    );
    let expected = tree(
        r##"{"paths":{"/a":{"get":{"parameters":[{"name":"n","in":"query","schema":{"type":"string"}}]}}},
             "openapi":"3.0.0","servers":[{"url":"http://h"}],
             "components":{"schemas":{"A":{"$ref":"#/definitions/B"}}}}"##,
    );
    assert_eq!(respecify_tree(&legacy), expected);
    let canonical = tree(r##"{"specVersion":"3.0.1","host":"h","swagger":"3"}"##);
    assert_eq!(respecify_tree(&canonical), tree(r##"{"specVersion":"3.0.1","host":"h"}"##));
    assert_eq!(respecify_tree(&tree("[2]")), tree("[2]"));
}

#[test]
fn members_are_stored_in_place_or_at_the_end_and_taken_out_in_order() {
    let mut object = members(r##"{"a":1,"b":2,"c":3}"##);
    insert(&mut object, "b", JsonValue::Bool(true));
    insert(&mut object, "d", JsonValue::Null);
    assert_eq!(JsonValue::Object(members(r##"{"a":1,"b":true,"c":3,"d":null}"##)), JsonValue::Object(object));
    let mut object = members(r##"{"a":1,"b":2,"c":3}"##);
    assert_eq!(remove(&mut object, "a"), Some(tree("1")));
    assert_eq!(remove(&mut object, "a"), None);
    assert_eq!(JsonValue::Object(object), tree(r##"{"b":2,"c":3}"##));
}
