use curlgenerator::decode::{decode_document, read_schema};
use curlgenerator::document::{
    Document, Location, NamedSchema, Operation, Parameter, PathEntry, PathItem, Schema, Server,
};
use curlgenerator::error::CurlGeneratorError;
use curlgenerator::generator::{generate, GeneratorSettings};
use curlgenerator::interop::{accepts_tree, parse_json, parse_yaml, permissive_read, Reread};
use curlgenerator::json::JsonValue;
use curlgenerator::legacy::{
    convert_v2_operation_to_v3, convert_v2_parameter_to_v3, convert_v2_schema_to_v3,
    convert_v2_spec_to_v3,
};
use curlgenerator::openapi::{
    convert_spec_to_openapi_v3, convert_swagger_v2_locally, convert_swagger_v2_manual,
    convert_swagger_v2_to_v3, detect_legacy, finish_unrecognized, normalize_legacy,
    parse_converted, parse_openapi, Parsed,
};

fn tree(text: &str) -> JsonValue {
    parse_json(text).unwrap()
}

fn bash() -> GeneratorSettings {
    GeneratorSettings {
        authorization_header: None,
        content_type: "application/json".to_string(),
        base_url: None,
        generate_bash_scripts: true,
    }
}

const LEGACY: &str = r##"{
  "swagger": "2.0",
  "info": {"title": "Users", "version": "1.0"},
  "host": "api.example.com",
  "basePath": "/v1",
  "paths": {
    "/users/{id}": {
      "get": {
        "operationId": "getUser",
        "parameters": [{"name": "id", "in": "path", "required": true, "type": "string"}],
        "responses": {"200": {"description": "ok"}}
      }
    }
  }
}"##;

const CANONICAL: &str = r##"{
  "openapi": "3.0.0",
  "info": {"title": "Pets", "version": "1.0"},
  "paths": {
    "/pets": {
      "post": {
        "summary": "Add a pet",
        "requestBody": {"content": {"application/json": {"schema": {"$ref": "#/components/schemas/Pet"}}}},
        "responses": {"201": {"description": "created"}}
      }
    },
    "x-internal": {"anything": true}
  },
  "components": {"schemas": {"Pet": {"type": "object", "required": ["name"],
      "properties": {"name": {"type": "string"}, "tags": {"type": "array", "items": {"type": "string"}}}}}}
}"##;

fn user_operation() -> Operation {
    Operation {
        operation_id: Some("getUser".to_string()),
        parameters: vec![Parameter {
            name: "id".to_string(),
            location: Location::Path,
            required: true,
            description: None,
            schema: Some(Schema::String),
        }],
        responses: vec![curlgenerator::document::Response {
            status: "200".to_string(),
            description: Some("ok".to_string()),
        }],
        ..Default::default()
    }
}

#[test]
fn a_legacy_description_gives_one_script_with_the_server_and_the_path_variable() {
    let document = match parse_openapi(LEGACY) {
        Ok(Parsed::Ready(document)) => document,
        other => panic!("not ready: {:?}", other),
    };
    let expected = Document {
        servers: vec![Server { url: "http://api.example.com/v1".to_string() }],
        paths: vec![PathEntry {
            template: "/users/{id}".to_string(),
            item: PathItem { get: Some(user_operation()), ..Default::default() },
        }],
        components: vec![],
    };
    assert_eq!(document, expected);
    let result = generate(&document, &bash()).unwrap();
    assert_eq!(result.files.len(), 1);
    assert_eq!(result.files[0].filename, "GETGetUser.sh");
    assert!(result.files[0]
        .content
        .contains("curl -X GET \"http://api.example.com/v1/users/${id}\" \\\n"));
    assert!(result.files[0].content.contains("\nid=\"\"\n"));
}

#[test]
fn a_canonical_description_is_read_as_it_is() {
    let parsed = parse_openapi(CANONICAL).unwrap();
    let direct = decode_document(&tree(CANONICAL)).unwrap();
    assert_eq!(parsed, Parsed::Ready(direct));
    let document = match parsed {
        Parsed::Ready(document) => document,
        Parsed::Convert(_) => panic!("no conversion is needed"),
    };
    assert_eq!(document.servers, vec![]);
    assert_eq!(document.paths.len(), 1);
    assert_eq!(document.paths[0].template, "/pets");
    assert_eq!(
        document.components,
        vec![NamedSchema {
            name: "Pet".to_string(),
            schema: Schema::Object {
                properties: vec![
                    NamedSchema { name: "name".to_string(), schema: Schema::String },
                    NamedSchema {
                        name: "tags".to_string(),
                        schema: Schema::Array { items: Some(Box::new(Schema::String)) },
                    },
                ],
                required: vec!["name".to_string()],
            },
        }]
    );
    let result = generate(&document, &bash()).unwrap();
    assert_eq!(result.files.len(), 1);
    assert_eq!(result.files[0].filename, "POSTPets.sh");
    assert!(result.files[0].content.contains("curl -X POST \"http://localhost/pets\" \\\n"));
    assert!(result.files[0].content.contains(
        "  -d '{\n  \"name\": \"string\",\n  \"tags\": [\n    \"string\"\n  ]\n}'\n"
    ));
}

#[test]
fn a_canonical_description_in_yaml_is_read_as_it_is() {
    let text = "openapi: 3.0.0\ninfo:\n  title: T\n  version: '1'\nservers:\n  - url: https://y.example\npaths:\n  /a/{x}:\n    delete:\n      responses:\n        '204':\n          description: gone\n";
    assert_eq!(parse_json(text), None);
    assert!(accepts_tree(&parse_yaml(text).unwrap()));
    let document = match parse_openapi(text) {
        Ok(Parsed::Ready(document)) => document,
        other => panic!("not ready: {:?}", other),
    };
    assert_eq!(document.servers, vec![Server { url: "https://y.example".to_string() }]);
    let result = generate(&document, &bash()).unwrap();
    assert_eq!(result.files.len(), 1);
    assert_eq!(result.files[0].filename, "DELETEAX.sh");
}

#[test]
fn a_legacy_description_in_yaml_is_converted() {
    let text = "swagger: '2.0'\ninfo:\n  title: T\n  version: '1'\nhost: y.example\npaths:\n  /a:\n    get:\n      responses:\n        '200':\n          description: ok\n";
    let document = match parse_openapi(text) {
        Ok(Parsed::Ready(document)) => document,
        other => panic!("not ready: {:?}", other),
    };
    assert_eq!(document.servers, vec![Server { url: "http://y.example".to_string() }]);
    assert_eq!(document.paths.len(), 1);
}

#[test]
fn a_text_that_is_neither_json_nor_yaml_is_a_parse_error() {
    assert_eq!(
        parse_openapi("{ unbalanced: ["),
        Err(CurlGeneratorError::OpenApiParseError("Failed to parse as JSON or YAML".to_string()))
    );
}

#[test]
fn a_text_of_no_dialect_is_unsupported() {
    assert_eq!(parse_openapi("[1, 2, 3]"), Err(CurlGeneratorError::UnsupportedDialect));
    assert_eq!(parse_openapi("just a text"), Err(CurlGeneratorError::UnsupportedDialect));
    assert_eq!(
        parse_openapi(r##"{"swagger": "1.2", "info": 3}"##),
        Err(CurlGeneratorError::UnsupportedDialect)
    );
    assert_eq!(finish_unrecognized(None), Err(CurlGeneratorError::UnsupportedDialect));
    assert_eq!(
        finish_unrecognized(Some(tree("[]"))),
        Err(CurlGeneratorError::UnsupportedDialect)
    );
}

#[test]
fn the_permissive_reader_understands_a_description_without_paths() {
    let reread = match permissive_read(&tree(
        r##"{"swagger": "2.0", "info": {"title": "T", "version": "1"}, "host": "p.example"}"##,
    )) {
        Reread::Tree(reread) => reread,
        other => panic!("no tree: {:?}", other),
    };
    assert_eq!(reread.get_str("specVersion"), Some("2.0"));
    assert_eq!(reread.get_str("host"), Some("p.example"));
    assert_eq!(permissive_read(&tree("[1]")), Reread::Refused);
}

#[test]
fn a_description_reread_with_paths_becomes_a_document() {
    let reread = tree(
        r##"{"specVersion": "2.0", "info": {"title": "T", "version": "1"}, "host": "p.example",
            "paths": {"/a": {"get": {"responses": {"200": {"description": "ok"}}}}}}"##,
    );
    let document = convert_spec_to_openapi_v3(&reread).unwrap();
    assert_eq!(document.servers, vec![Server { url: "http://p.example".to_string() }]);
    assert_eq!(document.paths.len(), 1);
    match finish_unrecognized(Some(reread)) {
        Ok(Parsed::Ready(found)) => assert_eq!(found, document),
        other => panic!("not ready: {:?}", other),
    }
}

#[test]
fn the_dialect_is_detected_by_the_version_member() {
    assert!(detect_legacy(&tree(r##"{"swagger": "2.0"}"##)));
    assert!(detect_legacy(&tree(r##"{"swagger": "2.1-beta"}"##)));
    assert!(!detect_legacy(&tree(r##"{"swagger": "3.0"}"##)));
    assert!(!detect_legacy(&tree(r##"{"swagger": 2.0}"##)));
    assert!(!detect_legacy(&tree(r##"{"openapi": "2.0"}"##)));
    assert!(!detect_legacy(&tree(r##"["swagger", "2.0"]"##)));
}

#[test]
fn a_legacy_description_that_no_local_way_converts_asks_for_the_service() {
    let broken = r##"{"swagger":"2.0","paths":{"/a":{"get":{"responses":{"200":{"description":"ok"}}}}}}"##;
    let parsed = parse_openapi(broken).unwrap();
    match &parsed {
        Parsed::Convert(payload) => assert_eq!(parse_json(payload), Some(tree(broken))),
        Parsed::Ready(_) => panic!("a description without info is no document"),
    }
    assert_eq!(normalize_legacy(&tree(broken)), parsed);
    assert_eq!(
        convert_swagger_v2_manual(&tree(broken)),
        Err(CurlGeneratorError::ConversionError(
            "the converted description is not a valid OpenAPI v3 document".to_string()
        ))
    );
    assert_eq!(
        convert_swagger_v2_locally(&tree(broken)),
        Err(CurlGeneratorError::InvalidSpecification)
    );
    assert_eq!(
        convert_swagger_v2_to_v3(&tree("7")),
        Err(CurlGeneratorError::InvalidSpecification)
    );
}

#[test]
fn the_second_way_converts_what_the_first_cannot() {
    let text = r##"{"swagger":"2.0","info":{"title":"T","version":"1","contact":"nobody"},
        "paths":{"/a":{"get":{"operationId":"a","responses":{"200":{"description":"ok"}}}}}}"##;
    assert!(convert_swagger_v2_manual(&tree(text)).is_err());
    let document = convert_swagger_v2_locally(&tree(text)).unwrap();
    assert_eq!(document.servers, vec![Server { url: "http://localhost".to_string() }]);
    assert_eq!(document.paths.len(), 1);
    assert_eq!(parse_openapi(text), Ok(Parsed::Ready(document)));
}

#[test]
fn the_answer_of_the_service_has_to_be_a_canonical_document() {
    let document = parse_converted(CANONICAL).unwrap();
    assert_eq!(document, decode_document(&tree(CANONICAL)).unwrap());
    let failed = Err(CurlGeneratorError::ConversionError(
        "Failed to parse converted OpenAPI v3 specification".to_string(),
    ));
    assert_eq!(parse_converted(LEGACY), failed);
    assert_eq!(parse_converted("<html>"), failed);
}

#[test]
fn only_what_decodes_as_openapi_v3_is_accepted_as_canonical() {
    assert!(accepts_tree(&tree(CANONICAL)));
    assert!(accepts_tree(&parse_yaml(CANONICAL).unwrap()));
    assert!(!accepts_tree(&tree(LEGACY)));
    assert!(!accepts_tree(&tree(r##"{"openapi":"3.0.0","info":{"title":"T","version":"1"}}"##)));
    assert!(!accepts_tree(&tree("[]")));
}

#[test]
fn a_status_written_as_a_number_in_yaml_is_read_as_its_text() {
    let text = "openapi: 3.0.0\ninfo:\n  title: T\n  version: '1'\npaths:\n  /a:\n    get:\n      responses:\n        200:\n          description: ok\n";
    let document = match parse_openapi(text) {
        Ok(Parsed::Ready(document)) => document,
        other => panic!("not ready: {:?}", other),
    };
    let operation = document.paths[0].item.get.as_ref().unwrap();
    assert_eq!(operation.responses.len(), 1);
    assert_eq!(operation.responses[0].status, "200");
}

#[test]
fn a_key_written_twice_counts_once_with_its_last_value() {
    let text = r##"{"openapi":"3.0.0","info":{"title":"T","version":"1"},
      "paths":{"/a":{"get":{"responses":{"200":{"description":"ok"}},
        "requestBody":{"content":{},"content":{"application/json":{"schema":
          {"type":"string","type":"integer"}}}}}}}}"##;
    let document = match parse_openapi(text) {
        Ok(Parsed::Ready(document)) => document,
        other => panic!("not ready: {:?}", other),
    };
    let body = document.paths[0].item.get.as_ref().unwrap().request_body.as_ref().unwrap();
    assert_eq!(body.content.len(), 1);
    assert_eq!(body.content[0].schema, Some(Schema::Integer));
}

#[test]
fn a_typed_schema_with_a_member_foreign_to_its_type_is_unknown() {
    let read = |text: &str| read_schema(&tree(text));
    assert_eq!(read(r##"{"type":"string","allOf":[{"type":"string"}]}"##), Schema::Unknown);
    assert_eq!(read(r##"{"type":"object","oneOf":[]}"##), Schema::Unknown);
    assert_eq!(read(r##"{"type":"integer","anyOf":[]}"##), Schema::Unknown);
    assert_eq!(read(r##"{"type":"boolean","not":{"type":"string"}}"##), Schema::Unknown);
    assert_eq!(read(r##"{"type":"string","minimum":1}"##), Schema::Unknown);
    assert_eq!(read(r##"{"type":"string","items":{"type":"string"}}"##), Schema::Unknown);
    assert_eq!(read(r##"{"type":"integer","pattern":"x"}"##), Schema::Unknown);
    assert_eq!(read(r##"{"type":"number","properties":{}}"##), Schema::Unknown);
    assert_eq!(read(r##"{"type":"boolean","format":"x"}"##), Schema::Unknown);
    assert_eq!(read(r##"{"type":"object","enum":[{}]}"##), Schema::Unknown);
    assert_eq!(read(r##"{"type":"object","maxItems":3}"##), Schema::Unknown);
    assert_eq!(read(r##"{"type":"array","required":["a"]}"##), Schema::Unknown);
    assert_eq!(read(r##"{"type":"array","format":"x"}"##), Schema::Unknown);
}

#[test]
fn a_typed_schema_lists_only_values_of_its_type() {
    let read = |text: &str| read_schema(&tree(text));
    assert_eq!(read(r##"{"type":"string","enum":["a",null]}"##), Schema::String);
    assert_eq!(read(r##"{"type":"string","enum":["a",1]}"##), Schema::Unknown);
    assert_eq!(read(r##"{"type":"number","enum":[1,2.5]}"##), Schema::Number);
    assert_eq!(read(r##"{"type":"number","enum":["1"]}"##), Schema::Unknown);
    assert_eq!(read(r##"{"type":"integer","enum":[1,-2]}"##), Schema::Integer);
    assert_eq!(read(r##"{"type":"integer","enum":[1.5]}"##), Schema::Unknown);
    assert_eq!(read(r##"{"type":"integer","enum":[18446744073709551615]}"##), Schema::Unknown);
    assert_eq!(read(r##"{"type":"boolean","enum":[true]}"##), Schema::Boolean);
    assert_eq!(read(r##"{"type":"boolean","enum":[0]}"##), Schema::Unknown);
    assert_eq!(read(r##"{"type":"integer","minimum":1,"maximum":9,"multipleOf":2}"##), Schema::Integer);
    assert_eq!(read(r##"{"type":"integer","minimum":1.5}"##), Schema::Unknown);
    assert_eq!(read(r##"{"type":"number","minimum":1.5}"##), Schema::Number);
}

#[test]
fn a_null_member_of_a_schema_counts_as_missing() {
    let read = |text: &str| read_schema(&tree(text));
    assert_eq!(read(r##"{"type":"string","allOf":null,"items":null,"enum":null}"##), Schema::String);
    assert_eq!(read(r##"{"type":"array","items":null}"##), Schema::Array { items: None });
    assert_eq!(
        read(r##"{"type":"array","format":null,"items":{"type":"integer","maxLength":null}}"##),
        Schema::Array { items: Some(Box::new(Schema::Integer)) }
    );
}

#[test]
fn schemas_are_read_by_type_and_reference() {
    let read = |text: &str| read_schema(&tree(text));
    assert_eq!(read(r##"{"type":"string","format":"date"}"##), Schema::String);
    assert_eq!(read(r##"{"type":"integer"}"##), Schema::Integer);
    assert_eq!(read(r##"{"type":"number"}"##), Schema::Number);
    assert_eq!(read(r##"{"type":"boolean"}"##), Schema::Boolean);
    assert_eq!(read(r##"{"type":"array"}"##), Schema::Array { items: None });
    assert_eq!(
        read(r##"{"type":"array","items":{"$ref":"#/components/schemas/A"}}"##),
        Schema::Array {
            items: Some(Box::new(Schema::Reference {
                target: "#/components/schemas/A".to_string()
            }))
        }
    );
    assert_eq!(
        read(r##"{"type":"object","required":["a",1,"b"],"properties":{"a":{"type":"null"},"b":7}}"##),
        Schema::Object {
            properties: vec![
                NamedSchema { name: "a".to_string(), schema: Schema::Unknown },
                NamedSchema { name: "b".to_string(), schema: Schema::Unknown },
            ],
            required: vec!["a".to_string(), "b".to_string()],
        }
    );
    assert_eq!(read(r##"{"type":"object"}"##), Schema::Object { properties: vec![], required: vec![] });
    assert_eq!(read(r##"{"oneOf":[{"type":"string"}]}"##), Schema::Unknown);
    assert_eq!(read(r##"{"type":["string","null"]}"##), Schema::Unknown);
    assert_eq!(read("true"), Schema::Unknown);
    assert_eq!(
        read(r##"{"$ref":"#/x","type":"string"}"##),
        Schema::Reference { target: "#/x".to_string() }
    );
}

#[test]
fn a_tree_of_the_wrong_shape_is_an_invalid_specification() {
    let invalid = Err(CurlGeneratorError::InvalidSpecification);
    assert_eq!(decode_document(&tree("[]")), invalid);
    assert_eq!(decode_document(&tree(r##"{"servers":{}}"##)), invalid);
    assert_eq!(decode_document(&tree(r##"{"servers":[{"description":"no url"}]}"##)), invalid);
    assert_eq!(decode_document(&tree(r##"{"paths":[]}"##)), invalid);
    assert_eq!(decode_document(&tree(r##"{"paths":{"/a":7}}"##)), invalid);
    assert_eq!(decode_document(&tree(r##"{"paths":{"/a":{"get":[]}}}"##)), invalid);
    assert_eq!(decode_document(&tree(r##"{"paths":{"/a":{"get":{"summary":7}}}}"##)), invalid);
    assert_eq!(decode_document(&tree(r##"{"paths":{"/a":{"get":{"parameters":{}}}}}"##)), invalid);
    assert_eq!(
        decode_document(&tree(r##"{"paths":{"/a":{"get":{"parameters":[{"name":"n","in":"body"}]}}}}"##)),
        invalid
    );
    assert_eq!(
        decode_document(&tree(r##"{"paths":{"/a":{"get":{"parameters":[{"in":"query"}]}}}}"##)),
        invalid
    );
    assert_eq!(decode_document(&tree(r##"{"paths":{"/a":{"put":{"requestBody":[]}}}}"##)), invalid);
    assert_eq!(
        decode_document(&tree(r##"{"paths":{"/a":{"put":{"requestBody":{"content":{"a/b":1}}}}}}"##)),
        invalid
    );
    assert_eq!(decode_document(&tree(r##"{"paths":{"/a":{"put":{"responses":[]}}}}"##)), invalid);
    assert_eq!(decode_document(&tree(r##"{"components":[]}"##)), invalid);
    assert_eq!(decode_document(&tree(r##"{"components":{"schemas":[]}}"##)), invalid);
    assert_eq!(decode_document(&tree("{}")), Ok(Document::default()));
}

#[test]
fn references_in_a_description_are_passed_over() {
    let document = decode_document(&tree(
        r##"{"paths":{
              "/ref":{"$ref":"other.yaml#/paths/a","get":{"responses":{}}},
              "/a":{"summary":"not an operation","patch":{
                  "parameters":[{"$ref":"#/components/parameters/p"},
                                {"name":"q","in":"cookie","content":{}}],
                  "requestBody":{"$ref":"#/components/requestBodies/b"},
                  "responses":{"default":{"$ref":"#/components/responses/r"}}}}}}"##,
    ))
    .unwrap();
    assert_eq!(document.paths.len(), 2);
    assert_eq!(document.paths[0].item, PathItem::default());
    let patch = document.paths[1].item.patch.as_ref().unwrap();
    assert_eq!(
        patch.parameters,
        vec![Parameter {
            name: "q".to_string(),
            location: Location::Cookie,
            required: false,
            description: None,
            schema: None,
        }]
    );
    assert_eq!(patch.request_body, None);
    assert_eq!(patch.responses.len(), 1);
    assert_eq!(patch.responses[0].description, None);
}

#[test]
fn the_second_way_builds_a_fresh_description() {
    let legacy = tree(
        r##"{"swagger":"2.0","info":{"title":"T","version":"1","termsOfService":"tos","license":{}},
             "schemes":["https"],"host":"h.example","basePath":"api",
             "definitions":{"A":{"type":"string","format":"date","description":"d","enum":["x"]},
                            "B":{"$ref":"#/definitions/A","type":"ignored"}},
             "paths":{"/a":{"delete":{"summary":"s"},
                            "get":{"operationId":"getA","tags":["t"],"description":"d",
                                   "parameters":[
                                     {"name":"id","in":"query","required":true,"type":"integer","format":"int64"},
                                     {"name":"plain","in":"header"},
                                     {"name":"first","in":"body","schema":{"type":"string"}},
                                     {"name":"body","in":"body","required":true,"schema":{"$ref":"#/definitions/A"}}],
                                   "responses":{"200":{"description":"ok","schema":{"$ref":"#/definitions/B"}},
                                                "404":{"description":"none"}}},
                            "trace":{"summary":"t"},
                            "head":{"summary":"h"},
                            "options":{"summary":"o"}}}}"##,
    );
    let expected = tree(
        r##"{"openapi":"3.0.0",
             "info":{"title":"T","version":"1","termsOfService":"tos"},
             "servers":[{"url":"https://h.example/api"}],
             "paths":{"/a":{"get":{"summary":null,"description":"d","operationId":"getA","tags":["t"],
                                   "parameters":[
                                     {"name":"id","in":"query","required":true,"schema":{"type":"integer","format":"int64"}},
                                     {"name":"plain","in":"header"}],
                                   "requestBody":{"content":{"application/json":{"schema":{"$ref":"#/components/schemas/A"}}},"required":true},
                                   "responses":{"200":{"description":"ok","content":{"application/json":{"schema":{"$ref":"#/components/schemas/B"}}}},
                                                "404":{"description":"none"}}},
                            "delete":{"summary":"s","responses":{}},
                            "options":{"summary":"o","responses":{}},
                            "head":{"summary":"h","responses":{}},
                            "trace":{"summary":"t","responses":{}}}},
             "components":{"schemas":{"A":{"type":"string","format":"date","description":"d","enum":["x"]},
                                      "B":{"$ref":"#/components/schemas/A"}}}}"##,
    );
    let mut expected = expected;
    if let JsonValue::Object(root) = &mut expected {
        if let JsonValue::Object(paths) = &mut root[3].value {
            if let JsonValue::Object(item) = &mut paths[0].value {
                if let JsonValue::Object(get) = &mut item[0].value {
                    get.remove(0);
                }
            }
        }
    }
    assert_eq!(convert_v2_spec_to_v3(&legacy), Ok(expected));
}

#[test]
fn the_second_way_fails_on_a_member_of_the_wrong_type() {
    let invalid = Err(CurlGeneratorError::InvalidSpecification);
    assert_eq!(convert_v2_spec_to_v3(&tree("[]")), invalid);
    assert_eq!(convert_v2_spec_to_v3(&tree(r##"{"swagger":"2.0"}"##)), invalid);
    assert_eq!(convert_v2_spec_to_v3(&tree(r##"{"info":{"title":"T"}}"##)), invalid);
    let with = |rest: &str| {
        convert_v2_spec_to_v3(&tree(&format!(r##"{{"info":{{"title":"T","version":"1"}},{}}}"##, rest)))
    };
    assert!(with(r##""host":"h""##).is_ok());
    assert_eq!(with(r##""host":7"##), invalid);
    assert_eq!(with(r##""schemes":"http""##), invalid);
    assert_eq!(with(r##""schemes":[1]"##), invalid);
    assert_eq!(with(r##""paths":[]"##), invalid);
    assert_eq!(with(r##""definitions":{"A":{"type":7}}"##), invalid);
    assert_eq!(with(r##""paths":{"/a":{"get":{"parameters":[{"name":"n"}]}}}"##), invalid);
    assert_eq!(with(r##""paths":{"/a":{"get":{"responses":{"200":{}}}}}"##), invalid);
    assert_eq!(convert_v2_schema_to_v3(&tree("7")), None);
    assert_eq!(convert_v2_schema_to_v3(&tree(r##"{"enum":[1]}"##)), None);
    assert_eq!(convert_v2_schema_to_v3(&tree("{}")), Some(tree("{}")));
    assert_eq!(convert_v2_parameter_to_v3(&tree(r##"{"name":"n","in":"q","required":"yes"}"##)), None);
    assert_eq!(
        convert_v2_parameter_to_v3(&tree(r##"{"name":"n","in":"q","required":false,"format":"f"}"##)),
        Some(tree(r##"{"name":"n","in":"q","schema":{"format":"f"}}"##))
    );
    assert_eq!(convert_v2_operation_to_v3(&tree(r##"{"tags":"a"}"##)), None);
    assert_eq!(convert_v2_operation_to_v3(&tree("{}")), Some(tree(r##"{"responses":{}}"##)));
}

const CANONICAL_WITH_EXTRAS: &str = r##"{
  "openapi": "3.0.0",
  "info": {"title": "Extras", "version": "1.0"},
  "components": null,
  "paths": {
    "x-internal": {"anything": true},
    "not-a-path": 5,
    "/notes/{id}": {
      "put": null,
      "get": {
        "operationId": null,
        "summary": null,
        "description": "Reads a note",
        "requestBody": null,
        "parameters": [{"name": "id", "in": "path", "required": true, "description": null,
                        "schema": {"type": "string"}}],
        "responses": {
          "x-note": true,
          "ignored": "wat",
          "default": null,
          "200": {"description": "ok", "content": {"application/json": {"schema": null}}},
          "4xx": {"description": "refused"},
          "6666": 7
        }
      }
    }
  }
}"##;

#[test]
fn what_the_canonical_decoder_passes_over_is_passed_over() {
    assert!(accepts_tree(&tree(CANONICAL_WITH_EXTRAS)));
    let document = match parse_openapi(CANONICAL_WITH_EXTRAS) {
        Ok(Parsed::Ready(document)) => document,
        other => panic!("not ready: {:?}", other),
    };
    assert_eq!(document.components, vec![]);
    assert_eq!(document.paths.len(), 1);
    assert_eq!(document.paths[0].template, "/notes/{id}");
    assert_eq!(document.paths[0].item.put, None);
    let get = document.paths[0].item.get.as_ref().unwrap();
    assert_eq!(get.operation_id, None);
    assert_eq!(get.summary, None);
    assert_eq!(get.description, Some("Reads a note".to_string()));
    assert_eq!(get.request_body, None);
    assert_eq!(get.parameters.len(), 1);
    assert_eq!(get.parameters[0].description, None);
    let statuses: Vec<&str> = get.responses.iter().map(|r| r.status.as_str()).collect();
    assert_eq!(statuses, vec!["200", "4xx"]);
    let files = generate(&document, &bash()).unwrap().files;
    assert_eq!(files.len(), 1);
    assert_eq!(files[0].filename, "GETNotesId.sh");
}

#[test]
fn an_operation_with_only_an_extension_among_its_responses_is_read() {
    let operation =
        curlgenerator::decode::read_operation(&tree(r##"{"responses": {"x-note": true}}"##));
    assert_eq!(operation, Some(Operation::default()));
    let refused =
        curlgenerator::decode::read_operation(&tree(r##"{"responses": {"200": true}}"##));
    assert_eq!(refused, None);
    let refused =
        curlgenerator::decode::read_operation(&tree(r##"{"responses": {"default": 7}}"##));
    assert_eq!(refused, None);
}

#[test]
fn a_legacy_description_that_declares_no_server_gets_the_default_one() {
    let text = r##"{"swagger":"2.0","info":{"title":"T","version":"1"},
        "paths":{"/a":{"get":{"responses":{"200":{"description":"ok"}}}}}}"##;
    let document = convert_swagger_v2_manual(&tree(text)).unwrap();
    assert_eq!(document.servers, vec![Server { url: "http://localhost".to_string() }]);
    assert_eq!(convert_swagger_v2_to_v3(&tree(text)).unwrap().servers, document.servers);
}

#[test]
fn a_converted_tree_that_is_no_document_is_a_conversion_error() {
    assert_eq!(
        curlgenerator::openapi::read_accepted(&tree(r##"{"swagger":"2.0"}"##)),
        Err(CurlGeneratorError::ConversionError(
            "the converted description is not a valid OpenAPI v3 document".to_string()
        ))
    );
}

#[test]
fn a_legacy_operation_with_body_and_form_parameters_declares_both_contents() {
    let text = r##"{"swagger":"2.0","info":{"title":"T","version":"1"},"host":"h.example",
      "paths":{"/pets":{"post":{"operationId":"addPet","parameters":[
        {"name":"pet","in":"body","required":true,"schema":{"$ref":"#/definitions/Pet"}},
        {"name":"note","in":"formData","type":"string","required":true},
        {"name":"count","in":"formData","type":"integer"}],
        "responses":{"200":{"description":"ok"}}}}},
      "definitions":{"Pet":{"type":"object","properties":{"name":{"type":"string"}}}}}"##;
    let document = match parse_openapi(text) {
        Ok(Parsed::Ready(document)) => document,
        other => panic!("not ready: {:?}", other),
    };
    let operation = document.paths[0].item.post.as_ref().unwrap();
    assert_eq!(operation.parameters, vec![]);
    let body = operation.request_body.as_ref().unwrap();
    assert_eq!(body.content.len(), 2);
    assert_eq!(body.content[0].media_type, "application/json");
    assert_eq!(
        body.content[0].schema,
        Some(Schema::Reference { target: "#/components/schemas/Pet".to_string() })
    );
    assert_eq!(body.content[1].media_type, "application/x-www-form-urlencoded");
    assert_eq!(
        body.content[1].schema,
        Some(Schema::Object {
            properties: vec![
                NamedSchema { name: "note".to_string(), schema: Schema::String },
                NamedSchema { name: "count".to_string(), schema: Schema::Integer },
            ],
            required: vec!["note".to_string()],
        })
    );
    let result = generate(&document, &bash()).unwrap();
    assert_eq!(result.files.len(), 1);
    assert_eq!(result.files[0].filename, "POSTAddPet.sh");
    assert!(result.files[0].content.contains("  -d '{\n  \"name\": \"string\"\n}'\n"));
    let mut form = bash();
    form.content_type = "application/x-www-form-urlencoded".to_string();
    let result = generate(&document, &form).unwrap();
    assert!(result.files[0]
        .content
        .contains("  -d '{\n  \"note\": \"string\",\n  \"count\": 0\n}'\n"));
}

#[test]
fn a_reference_among_the_parameters_of_a_legacy_operation_is_passed_over() {
    let text = r##"{"swagger":"2.0","info":{"title":"T","version":"1"},
      "paths":{"/pets":{"get":{"parameters":[
        {"$ref":"#/parameters/limit"},
        {"name":"tag","in":"query","type":"string"}],
        "responses":{"200":{"description":"ok"}}}}}}"##;
    let document = match parse_openapi(text) {
        Ok(Parsed::Ready(document)) => document,
        other => panic!("not ready: {:?}", other),
    };
    let operation = document.paths[0].item.get.as_ref().unwrap();
    assert_eq!(
        operation.parameters,
        vec![Parameter {
            name: "tag".to_string(),
            location: Location::Query,
            required: false,
            description: None,
            schema: Some(Schema::String),
        }]
    );
}
