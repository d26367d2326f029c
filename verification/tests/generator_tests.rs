use curlgenerator::document::{
    Document, Location, MediaType, NamedSchema, Operation, Parameter, PathEntry, PathItem,
    RequestBody, Schema, Server,
};
use curlgenerator::generator::{
    determine_base_url, extract_path_parameters, extract_query_parameters, generate,
    generate_bash_script, generate_operation_name, generate_powershell_script,
    GeneratorSettings,
};
use curlgenerator::json::{JsonValue, Member};
use curlgenerator::sample::{
    generate_sample_from_schema, resolve_schema_reference, sample_to_depth,
    schema_to_json_value,
};

fn create_minimal_openapi() -> Document {
    Document { servers: vec![], paths: vec![], components: vec![] }
}

fn settings(bash: bool) -> GeneratorSettings {
    GeneratorSettings {
        authorization_header: None,
        content_type: "application/json".to_string(),
        base_url: None,
        generate_bash_scripts: bash,
    }
}

fn path_parameter(name: &str, description: Option<&str>) -> Parameter {
    Parameter {
        name: name.to_string(),
        location: Location::Path,
        required: true,
        description: description.map(String::from),
        schema: Some(Schema::String),
    }
}

fn query_parameter(name: &str, description: Option<&str>) -> Parameter {
    Parameter {
        name: name.to_string(),
        location: Location::Query,
        required: false,
        description: description.map(String::from),
        schema: Some(Schema::Integer),
    }
}

#[test]
fn test_generator_settings_clone() {
    let settings = GeneratorSettings {
        authorization_header: Some("Bearer token".to_string()),
        content_type: "application/json".to_string(),
        base_url: Some("http://api.test".to_string()),
        generate_bash_scripts: true,
    };
    let cloned = settings.clone();
    assert_eq!(settings.content_type, cloned.content_type);
    assert_eq!(settings.generate_bash_scripts, cloned.generate_bash_scripts);
}

#[test]
fn test_determine_base_url_with_settings() {
    let document = create_minimal_openapi();
    let settings = GeneratorSettings {
        authorization_header: None,
        content_type: "application/json".to_string(),
        base_url: Some("http://custom.com".to_string()),
        generate_bash_scripts: false,
    };
    assert_eq!(determine_base_url(&document, &settings), "http://custom.com");
}

#[test]
fn test_determine_base_url_from_document() {
    let mut document = create_minimal_openapi();
    document.servers = vec![Server { url: "http://api.example.com".to_string() }];
    let settings = GeneratorSettings {
        authorization_header: None,
        content_type: "application/json".to_string(),
        base_url: None,
        generate_bash_scripts: false,
    };
    assert_eq!(determine_base_url(&document, &settings), "http://api.example.com");
}

#[test]
fn test_determine_base_url_default() {
    let document = create_minimal_openapi();
    let settings = GeneratorSettings {
        authorization_header: None,
        content_type: "application/json".to_string(),
        base_url: None,
        generate_bash_scripts: false,
    };
    assert_eq!(determine_base_url(&document, &settings), "http://localhost");
}

#[test]
fn the_override_wins_over_the_servers_of_the_document() {
    let mut document = create_minimal_openapi();
    document.servers = vec![
        Server { url: "http://first.example.com".to_string() },
        Server { url: "http://second.example.com".to_string() },
    ];
    let mut chosen = settings(true);
    assert_eq!(determine_base_url(&document, &chosen), "http://first.example.com");
    chosen.base_url = Some("http://override.test".to_string());
    assert_eq!(determine_base_url(&document, &chosen), "http://override.test");
}

#[test]
fn test_generate_operation_name_with_operation_id() {
    let operation =
        Operation { operation_id: Some("get-user-by-id".to_string()), ..Default::default() };
    let name = generate_operation_name("GET", "/users/{id}", &operation);
    assert_eq!(name, "GETGetUserById");
}

#[test]
fn test_generate_operation_name_from_path() {
    let operation = Operation::default();
    let name = generate_operation_name("POST", "/users", &operation);
    assert_eq!(name, "POSTUsers");
}

#[test]
fn test_generate_operation_name_with_path_params() {
    let operation = Operation::default();
    let name = generate_operation_name("DELETE", "/users/{id}/posts/{postId}", &operation);
    assert_eq!(name, "DELETEUsersIdPostsPostId");
}

#[test]
fn test_generate_operation_name_with_slashes() {
    let mut operation = Operation::default();
    operation.operation_id = Some("post-/events/v3/send".to_string());

    let name = generate_operation_name("POST", "/test", &operation);

    assert_eq!(name, "POSTPostEventsV3Send");
    assert!(!name.contains("/"));
}

#[test]
fn an_operation_without_identifier_is_named_after_its_path() {
    let operation = Operation::default();
    assert_eq!(generate_operation_name("GET", "/a/{x}", &operation), "GETAX");
    assert_eq!(generate_operation_name("PUT", "/user-groups/{id}", &operation), "PUTUserGroupsId");
}

#[test]
fn an_identifier_with_spaces_is_split_into_words() {
    let operation =
        Operation { operation_id: Some("list all pets".to_string()), ..Default::default() };
    assert_eq!(generate_operation_name("GET", "/pets", &operation), "GETListAllPets");
}

#[test]
fn test_extract_path_parameters() {
    let operation = Operation {
        parameters: vec![path_parameter("userId", Some("User ID"))],
        ..Default::default()
    };

    let params = extract_path_parameters(&operation);
    assert_eq!(params.len(), 1);
    assert_eq!(params[0].name, "userId");
}

#[test]
fn test_extract_query_parameters() {
    let operation = Operation {
        parameters: vec![query_parameter("limit", Some("Limit results"))],
        ..Default::default()
    };

    let params = extract_query_parameters(&operation);
    assert_eq!(params.len(), 1);
    assert_eq!(params[0].name, "limit");
}

#[test]
fn parameters_are_chosen_by_location_in_their_order() {
    let mut by_content = path_parameter("c", None);
    by_content.schema = None;
    let mut header = query_parameter("h", None);
    header.location = Location::Header;
    let mut cookie = query_parameter("k", None);
    cookie.location = Location::Cookie;
    let mut bare_query = query_parameter("q2", None);
    bare_query.schema = None;
    let operation = Operation {
        parameters: vec![
            query_parameter("q1", Some("first")),
            path_parameter("p1", None),
            by_content,
            header,
            bare_query,
            cookie,
            path_parameter("p2", Some("second")),
        ],
        ..Default::default()
    };
    let path = extract_path_parameters(&operation);
    let names: Vec<&str> = path.iter().map(|p| p.name.as_str()).collect();
    assert_eq!(names, vec!["p1", "c", "p2"]);
    assert_eq!(path[2].description, Some("second".to_string()));
    let query = extract_query_parameters(&operation);
    let names: Vec<&str> = query.iter().map(|p| p.name.as_str()).collect();
    assert_eq!(names, vec!["q1", "q2"]);
    assert_eq!(query[0].description, Some("first".to_string()));
}

#[test]
fn test_schema_to_json_value_string() {
    let document = create_minimal_openapi();
    let schema = Schema::String;
    let value = schema_to_json_value(&schema, &document);
    assert_eq!(value, JsonValue::String("string".to_string()));
}

#[test]
fn test_schema_to_json_value_integer() {
    let document = create_minimal_openapi();
    let schema = Schema::Integer;
    let value = schema_to_json_value(&schema, &document);
    assert_eq!(value, JsonValue::Number(0.into()));
}

#[test]
fn test_schema_to_json_value_boolean() {
    let document = create_minimal_openapi();
    let schema = Schema::Boolean;
    let value = schema_to_json_value(&schema, &document);
    assert_eq!(value, JsonValue::Bool(false));
}

#[test]
fn test_schema_to_json_value_array() {
    let document = create_minimal_openapi();
    let schema = Schema::Array { items: Some(Box::new(Schema::String)) };
    let value = schema_to_json_value(&schema, &document);
    assert!(matches!(value, JsonValue::Array(_)));
    assert_eq!(value, JsonValue::Array(vec![JsonValue::String("string".to_string())]));
}

#[test]
fn a_number_samples_as_a_decimal_zero() {
    let document = create_minimal_openapi();
    let value = schema_to_json_value(&Schema::Number, &document);
    assert_eq!(value, JsonValue::Number(serde_json::Number::from_f64(0.0).unwrap()));
    assert_eq!(generate_sample_from_schema(&Schema::Number, &document), "0.0");
}

#[test]
fn an_unknown_schema_and_an_array_without_items_sample_as_null_and_empty() {
    let document = create_minimal_openapi();
    assert_eq!(schema_to_json_value(&Schema::Unknown, &document), JsonValue::Null);
    assert_eq!(generate_sample_from_schema(&Schema::Unknown, &document), "null");
    let bare = Schema::Array { items: None };
    assert_eq!(schema_to_json_value(&bare, &document), JsonValue::Array(vec![]));
    assert_eq!(generate_sample_from_schema(&bare, &document), "[]");
}

fn pet_document() -> Document {
    Document {
        servers: vec![],
        paths: vec![],
        components: vec![
            NamedSchema {
                name: "Tag".to_string(),
                schema: Schema::Object {
                    properties: vec![NamedSchema {
                        name: "label".to_string(),
                        schema: Schema::String,
                    }],
                    required: vec![],
                },
            },
            NamedSchema {
                name: "Alias".to_string(),
                schema: Schema::Reference { target: "#/components/schemas/Tag".to_string() },
            },
        ],
    }
}

#[test]
fn an_object_samples_its_properties_in_declaration_order() {
    let document = pet_document();
    let schema = Schema::Object {
        properties: vec![
            NamedSchema { name: "name".to_string(), schema: Schema::String },
            NamedSchema { name: "age".to_string(), schema: Schema::Integer },
            NamedSchema {
                name: "tag".to_string(),
                schema: Schema::Reference { target: "#/components/schemas/Tag".to_string() },
            },
            NamedSchema {
                name: "lost".to_string(),
                schema: Schema::Reference { target: "#/components/schemas/Nowhere".to_string() },
            },
            NamedSchema {
                name: "flags".to_string(),
                schema: Schema::Array { items: Some(Box::new(Schema::Boolean)) },
            },
        ],
        required: vec!["name".to_string()],
    };
    let expected = JsonValue::Object(vec![
        Member { key: "name".to_string(), value: JsonValue::String("string".to_string()) },
        Member { key: "age".to_string(), value: JsonValue::Number(0.into()) },
        Member {
            key: "tag".to_string(),
            value: JsonValue::Object(vec![Member {
                key: "label".to_string(),
                value: JsonValue::String("string".to_string()),
            }]),
        },
        Member { key: "lost".to_string(), value: JsonValue::String("ref".to_string()) },
        Member { key: "flags".to_string(), value: JsonValue::Array(vec![JsonValue::Bool(false)]) },
    ]);
    assert_eq!(schema_to_json_value(&schema, &document), expected);
    assert_eq!(
        generate_sample_from_schema(&schema, &document),
        "{\n  \"name\": \"string\",\n  \"age\": 0,\n  \"tag\": {\n    \"label\": \"string\"\n  },\n  \"lost\": \"ref\",\n  \"flags\": [\n    false\n  ]\n}"
    );
}

#[test]
fn only_references_to_component_schemas_resolve() {
    let document = pet_document();
    assert!(resolve_schema_reference(&document, "#/components/schemas/Tag").is_some());
    assert_eq!(resolve_schema_reference(&document, "#/components/schemas/Missing"), None);
    assert_eq!(resolve_schema_reference(&document, "#/definitions/Tag"), None);
    assert_eq!(resolve_schema_reference(&document, "#/components/parameters/Tag"), None);
    assert_eq!(resolve_schema_reference(&document, "other.yaml#/components/schemas/Tag"), None);
    assert_eq!(resolve_schema_reference(&document, "#"), None);
    assert_eq!(resolve_schema_reference(&document, "#/components/schemas/Alias"), None);
    assert_eq!(resolve_schema_reference(&document, "#/components/schemas/"), None);
}

fn depth_of(value: &JsonValue) -> usize {
    match value {
        JsonValue::Array(items) => 1 + items.iter().map(depth_of).max().unwrap_or(0),
        JsonValue::Object(members) => {
            1 + members.iter().map(|m| depth_of(&m.value)).max().unwrap_or(0)
        }
        _ => 0,
    }
}

#[test]
fn a_schema_that_refers_to_itself_samples_to_a_bounded_depth() {
    let document = Document {
        servers: vec![],
        paths: vec![],
        components: vec![NamedSchema {
            name: "Node".to_string(),
            schema: Schema::Object {
                properties: vec![
                    NamedSchema { name: "value".to_string(), schema: Schema::Integer },
                    NamedSchema {
                        name: "next".to_string(),
                        schema: Schema::Reference {
                            target: "#/components/schemas/Node".to_string(),
                        },
                    },
                ],
                required: vec![],
            },
        }],
    };
    let start = Schema::Reference { target: "#/components/schemas/Node".to_string() };
    let value = schema_to_json_value(&start, &document);
    assert!(depth_of(&value) <= 32);
    assert!(depth_of(&value) >= 15);
    let shallow = sample_to_depth(&start, &document, 4);
    let expected = JsonValue::Object(vec![
        Member { key: "value".to_string(), value: JsonValue::Number(0.into()) },
        Member {
            key: "next".to_string(),
            value: JsonValue::Object(vec![
                Member { key: "value".to_string(), value: JsonValue::Null },
                Member { key: "next".to_string(), value: JsonValue::Null },
            ]),
        },
    ]);
    assert_eq!(shallow, expected);
    assert_eq!(sample_to_depth(&start, &document, 0), JsonValue::Null);
    let text = generate_sample_from_schema(&start, &document);
    assert!(text.starts_with("{\n  \"value\": 0,\n  \"next\": {"));
}

#[test]
fn test_generate_with_simple_operation() {
    let mut document = create_minimal_openapi();
    document.paths.push(PathEntry {
        template: "/test".to_string(),
        item: PathItem {
            get: Some(Operation {
                operation_id: Some("getTest".to_string()),
                ..Default::default()
            }),
            ..Default::default()
        },
    });

    let settings = GeneratorSettings {
        authorization_header: None,
        content_type: "application/json".to_string(),
        base_url: Some("http://api.test".to_string()),
        generate_bash_scripts: false,
    };

    let result = generate(&document, &settings).unwrap();
    assert_eq!(result.files.len(), 1);
    assert!(result.files[0].filename.ends_with(".ps1"));
}

#[test]
fn test_generate_bash_script() {
    let mut document = create_minimal_openapi();
    document.paths.push(PathEntry {
        template: "/users".to_string(),
        item: PathItem { post: Some(Operation::default()), ..Default::default() },
    });

    let settings = GeneratorSettings {
        authorization_header: Some("Bearer test".to_string()),
        content_type: "application/json".to_string(),
        base_url: None,
        generate_bash_scripts: true,
    };

    let result = generate(&document, &settings).unwrap();
    assert_eq!(result.files.len(), 1);
    assert!(result.files[0].filename.ends_with(".sh"));
    assert!(result.files[0].content.contains("curl"));
}

#[test]
fn test_generate_with_authorization() {
    let mut document = create_minimal_openapi();
    document.paths.push(PathEntry {
        template: "/secure".to_string(),
        item: PathItem { get: Some(Operation::default()), ..Default::default() },
    });

    let settings = GeneratorSettings {
        authorization_header: Some("Bearer secret_token".to_string()),
        content_type: "application/json".to_string(),
        base_url: None,
        generate_bash_scripts: false,
    };

    let result = generate(&document, &settings).unwrap();
    assert!(result.files[0].content.contains("secret_token"));
}

fn user_operation() -> Operation {
    Operation {
        operation_id: Some("getUser".to_string()),
        summary: Some("Get a user".to_string()),
        description: Some("Returns one user".to_string()),
        parameters: vec![
            query_parameter("page-size", Some("Items per page")),
            path_parameter("userId", Some("User ID")),
            query_parameter("Sort", None),
        ],
        request_body: Some(RequestBody {
            content: vec![
                MediaType { media_type: "text/plain".to_string(), schema: Some(Schema::String) },
                MediaType {
                    media_type: "application/json".to_string(),
                    schema: Some(Schema::Object {
                        properties: vec![NamedSchema {
                            name: "name".to_string(),
                            schema: Schema::String,
                        }],
                        required: vec![],
                    }),
                },
            ],
        }),
        responses: vec![],
    }
}

#[test]
fn a_bash_script_is_rendered_line_by_line() {
    let document = create_minimal_openapi();
    let mut chosen = settings(true);
    chosen.authorization_header = Some("Bearer abc".to_string());
    let script = generate_bash_script(
        "GET",
        "/users/{userId}",
        &user_operation(),
        "http://localhost",
        &chosen,
        &document,
    );
    let expected = "#\n\
# Request: GET /users/{userId}\n\
# Summary: Get a user\n\
# Description: Returns one user\n\
#\n\
\n\
# User ID\n\
userid=\"\"\n\
# Items per page\n\
page_size=\"\"\n\
sort=\"\"\n\
\n\
curl -X GET \"http://localhost/users/${userid}?page-size=${page_size}&Sort=${sort}\" \\\n  \
-H \"Accept: application/json\" \\\n  \
-H \"Content-Type: application/json\" \\\n  \
-H \"Authorization: Bearer abc\" \\\n  \
-d '{\n  \"name\": \"string\"\n}'\n";
    assert_eq!(script, expected);
}

#[test]
fn a_bash_script_without_parameters_body_or_authorization() {
    let document = create_minimal_openapi();
    let script = generate_bash_script(
        "POST",
        "/users",
        &Operation::default(),
        "http://api.test",
        &settings(true),
        &document,
    );
    let expected = "#\n# Request: POST /users\n#\n\ncurl -X POST \"http://api.test/users\" \\\n  -H \"Accept: application/json\" \\\n  -H \"Content-Type: application/json\" \\\n";
    assert_eq!(script, expected);
}

#[test]
fn a_bash_script_takes_its_headers_from_the_settings() {
    let document = create_minimal_openapi();
    let mut chosen = settings(true);
    chosen.content_type = "text/plain".to_string();
    let script = generate_bash_script(
        "PUT",
        "/notes",
        &user_operation(),
        "http://api.test",
        &chosen,
        &document,
    );
    assert!(script.contains("  -H \"Accept: text/plain\" \\\n"));
    assert!(script.contains("  -H \"Content-Type: text/plain\" \\"));
    assert!(script.ends_with("\\\n  -d '\"string\"'\n"));
}

#[test]
fn a_powershell_script_is_rendered_line_by_line() {
    let document = create_minimal_openapi();
    let mut chosen = settings(false);
    chosen.authorization_header = Some("Bearer abc".to_string());
    let script = generate_powershell_script(
        "GET",
        "/users/{userId}",
        &user_operation(),
        "http://localhost",
        &chosen,
        &document,
    );
    let expected = "<#\n  \
Request: GET /users/{userId}\n  \
Summary: Get a user\n  \
Description: Returns one user\n\
#>\n\
\n\
param(\n   \
<# User ID #>\n   \
[Parameter(Mandatory=$True)]\n   \
[String] $userid\n\
,\n   \
<# Items per page #>\n   \
[Parameter(Mandatory=$True)]\n   \
[String] $page_size\n\
,\n   \
[Parameter(Mandatory=$True)]\n   \
[String] $sort\n\
\n\
)\n\
\n\
curl -X GET http://localhost/users/$userid?page-size=$page_size&Sort=$sort `\n  \
-H 'Accept: application/json' `\n  \
-H 'Content-Type: application/json' `\n  \
-H 'Authorization: Bearer abc' `\n  \
-d '{\n  \"name\": \"string\"\n}'\n";
    assert_eq!(script, expected);
}

#[test]
fn a_powershell_script_without_parameters_has_no_parameter_block() {
    let document = create_minimal_openapi();
    let script = generate_powershell_script(
        "DELETE",
        "/users",
        &Operation::default(),
        "http://api.test",
        &settings(false),
        &document,
    );
    let expected = "<#\n  Request: DELETE /users\n#>\n\ncurl -X DELETE http://api.test/users `\n  -H 'Accept: application/json' `\n  -H 'Content-Type: application/json' `\n";
    assert_eq!(script, expected);
}

#[test]
fn a_body_that_refers_to_a_missing_component_is_an_empty_object() {
    let document = pet_document();
    let mut operation = Operation::default();
    operation.request_body = Some(RequestBody {
        content: vec![MediaType {
            media_type: "application/json".to_string(),
            schema: Some(Schema::Reference { target: "#/components/schemas/Gone".to_string() }),
        }],
    });
    let script = generate_powershell_script(
        "POST",
        "/pets",
        &operation,
        "http://api.test",
        &settings(false),
        &document,
    );
    assert!(script.ends_with("  -d '{}'\n"));
    operation.request_body = Some(RequestBody {
        content: vec![MediaType {
            media_type: "application/json".to_string(),
            schema: Some(Schema::Reference { target: "#/components/schemas/Tag".to_string() }),
        }],
    });
    let script = generate_powershell_script(
        "POST",
        "/pets",
        &operation,
        "http://api.test",
        &settings(false),
        &document,
    );
    assert!(script.ends_with("  -d '{\n  \"label\": \"string\"\n}'\n"));
}

#[test]
fn one_file_for_every_operation_in_the_order_of_paths_and_verbs() {
    let mut document = create_minimal_openapi();
    document.paths.push(PathEntry {
        template: "/b".to_string(),
        item: PathItem {
            trace: Some(Operation::default()),
            patch: Some(Operation::default()),
            head: Some(Operation::default()),
            options: Some(Operation::default()),
            delete: Some(Operation::default()),
            post: Some(Operation::default()),
            put: Some(Operation::default()),
            get: Some(Operation::default()),
        },
    });
    document.paths.push(PathEntry { template: "/empty".to_string(), item: PathItem::default() });
    document.paths.push(PathEntry {
        template: "/a/{x}".to_string(),
        item: PathItem { delete: Some(Operation::default()), ..Default::default() },
    });
    let result = generate(&document, &settings(true)).unwrap();
    let names: Vec<&str> = result.files.iter().map(|f| f.filename.as_str()).collect();
    assert_eq!(
        names,
        vec![
            "GETB.sh",
            "PUTB.sh",
            "POSTB.sh",
            "DELETEB.sh",
            "OPTIONSB.sh",
            "HEADB.sh",
            "PATCHB.sh",
            "TRACEB.sh",
            "DELETEAX.sh"
        ]
    );
    let result = generate(&document, &settings(false)).unwrap();
    assert_eq!(result.files.len(), 9);
    assert_eq!(result.files[8].filename, "DELETEAX.ps1");
}

#[test]
fn without_servers_and_override_every_script_begins_its_url_at_localhost() {
    let mut document = create_minimal_openapi();
    document.paths.push(PathEntry {
        template: "/a".to_string(),
        item: PathItem {
            get: Some(Operation::default()),
            post: Some(Operation::default()),
            ..Default::default()
        },
    });
    document.paths.push(PathEntry {
        template: "/b".to_string(),
        item: PathItem { put: Some(Operation::default()), ..Default::default() },
    });
    let result = generate(&document, &settings(true)).unwrap();
    assert_eq!(result.files.len(), 3);
    for file in &result.files {
        assert!(file.content.contains(" \"http://localhost/"));
    }
    let result = generate(&document, &settings(false)).unwrap();
    assert!(result.files[0].content.contains("curl -X GET http://localhost/a `\n"));
    assert!(result.files[1].content.contains("curl -X POST http://localhost/a `\n"));
    assert!(result.files[2].content.contains("curl -X PUT http://localhost/b `\n"));
}
