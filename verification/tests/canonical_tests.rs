use curlgenerator::decode::decode_document;
use curlgenerator::document::{Document, Location, Operation, Schema};
use curlgenerator::interop::{accepts_tree, parse_json};
use openapiv3::{OpenAPI, Parameter, ParameterSchemaOrContent, ReferenceOr, SchemaKind, Type};

fn shape_read(schema: &Schema) -> String {
    match schema {
        Schema::String => "string".to_string(),
        Schema::Integer => "integer".to_string(),
        Schema::Number => "number".to_string(),
        Schema::Boolean => "boolean".to_string(),
        Schema::Object { properties, required } => {
            let inner: Vec<String> = properties
                .iter()
                .map(|p| format!("{}:{}", p.name, shape_read(&p.schema)))
                .collect();
            format!("object{{{}}}{:?}", inner.join(","), required)
        }
        Schema::Array { items } => match items {
            Some(inner) => format!("array[{}]", shape_read(inner)),
            None => "array[]".to_string(),
        },
        Schema::Reference { target } => format!("ref({})", target),
        Schema::Unknown => "unknown".to_string(),
    }
}

fn shape_boxed(schema: &ReferenceOr<Box<openapiv3::Schema>>) -> String {
    match schema {
        ReferenceOr::Reference { reference } => format!("ref({})", reference),
        ReferenceOr::Item(inner) => shape_of(inner),
    }
}

fn shape_decoded(schema: &ReferenceOr<openapiv3::Schema>) -> String {
    match schema {
        ReferenceOr::Reference { reference } => format!("ref({})", reference),
        ReferenceOr::Item(inner) => shape_of(inner),
    }
}

fn shape_of(schema: &openapiv3::Schema) -> String {
    match &schema.schema_kind {
        SchemaKind::Type(Type::String(_)) => "string".to_string(),
        SchemaKind::Type(Type::Integer(_)) => "integer".to_string(),
        SchemaKind::Type(Type::Number(_)) => "number".to_string(),
        SchemaKind::Type(Type::Boolean(_)) => "boolean".to_string(),
        SchemaKind::Type(Type::Object(object)) => {
            let inner: Vec<String> = object
                .properties
                .iter()
                .map(|(name, p)| format!("{}:{}", name, shape_boxed(p)))
                .collect();
            format!("object{{{}}}{:?}", inner.join(","), object.required)
        }
        SchemaKind::Type(Type::Array(array)) => match &array.items {
            Some(inner) => format!("array[{}]", shape_boxed(inner)),
            None => "array[]".to_string(),
        },
        _ => "unknown".to_string(),
    }
}

fn operation_read(lines: &mut Vec<String>, path: &str, verb: &str, bound: &Option<Operation>) {
    let operation = match bound {
        Some(operation) => operation,
        None => return,
    };
    lines.push(format!(
        "operation {} {} {:?} {:?} {:?}",
        path, verb, operation.operation_id, operation.summary, operation.description
    ));
    for parameter in &operation.parameters {
        let place = match parameter.location {
            Location::Path => "path",
            Location::Query => "query",
            Location::Header => "header",
            Location::Cookie => "cookie",
        };
        lines.push(format!(
            "parameter {} {} {} {:?} {:?}",
            parameter.name,
            place,
            parameter.required,
            parameter.description,
            parameter.schema.as_ref().map(shape_read)
        ));
    }
    if let Some(body) = &operation.request_body {
        for entry in &body.content {
            lines.push(format!(
                "content {} {:?}",
                entry.media_type,
                entry.schema.as_ref().map(shape_read)
            ));
        }
    }
}

fn lines_read(document: &Document) -> Vec<String> {
    let mut lines = Vec::new();
    for server in &document.servers {
        lines.push(format!("server {}", server.url));
    }
    for entry in &document.paths {
        let path = entry.template.as_str();
        operation_read(&mut lines, path, "get", &entry.item.get);
        operation_read(&mut lines, path, "put", &entry.item.put);
        operation_read(&mut lines, path, "post", &entry.item.post);
        operation_read(&mut lines, path, "delete", &entry.item.delete);
        operation_read(&mut lines, path, "options", &entry.item.options);
        operation_read(&mut lines, path, "head", &entry.item.head);
        operation_read(&mut lines, path, "patch", &entry.item.patch);
        operation_read(&mut lines, path, "trace", &entry.item.trace);
    }
    for component in &document.components {
        lines.push(format!("component {} {}", component.name, shape_read(&component.schema)));
    }
    lines
}

fn operation_decoded(
    lines: &mut Vec<String>,
    path: &str,
    verb: &str,
    bound: &Option<openapiv3::Operation>,
) {
    let operation = match bound {
        Some(operation) => operation,
        None => return,
    };
    lines.push(format!(
        "operation {} {} {:?} {:?} {:?}",
        path, verb, operation.operation_id, operation.summary, operation.description
    ));
    for parameter in &operation.parameters {
        let parameter = match parameter {
            ReferenceOr::Item(parameter) => parameter,
            ReferenceOr::Reference { .. } => continue,
        };
        let place = match parameter {
            Parameter::Path { .. } => "path",
            Parameter::Query { .. } => "query",
            Parameter::Header { .. } => "header",
            Parameter::Cookie { .. } => "cookie",
        };
        let data = parameter.parameter_data_ref();
        let schema = match &data.format {
            ParameterSchemaOrContent::Schema(schema) => Some(shape_decoded(schema)),
            ParameterSchemaOrContent::Content(_) => None,
        };
        lines.push(format!(
            "parameter {} {} {} {:?} {:?}",
            data.name, place, data.required, data.description, schema
        ));
    }
    if let Some(ReferenceOr::Item(body)) = &operation.request_body {
        for (media_type, entry) in &body.content {
            lines.push(format!(
                "content {} {:?}",
                media_type,
                entry.schema.as_ref().map(shape_decoded)
            ));
        }
    }
}

fn lines_decoded(document: &OpenAPI) -> Vec<String> {
    let mut lines = Vec::new();
    for server in &document.servers {
        lines.push(format!("server {}", server.url));
    }
    for (path, item) in &document.paths.paths {
        let item = match item {
            ReferenceOr::Item(item) => item,
            ReferenceOr::Reference { .. } => continue,
        };
        operation_decoded(&mut lines, path, "get", &item.get);
        operation_decoded(&mut lines, path, "put", &item.put);
        operation_decoded(&mut lines, path, "post", &item.post);
        operation_decoded(&mut lines, path, "delete", &item.delete);
        operation_decoded(&mut lines, path, "options", &item.options);
        operation_decoded(&mut lines, path, "head", &item.head);
        operation_decoded(&mut lines, path, "patch", &item.patch);
        operation_decoded(&mut lines, path, "trace", &item.trace);
    }
    if let Some(components) = &document.components {
        for (name, schema) in &components.schemas {
            lines.push(format!("component {} {}", name, shape_decoded(schema)));
        }
    }
    lines
}

// How many of the texts are accepted as canonical; each of them has to read
// as a document that holds what the outside decoder holds.
fn accepted_among(texts: &[String]) -> usize {
    let mut accepted = 0;
    for text in texts {
        let tree = parse_json(text).unwrap_or_else(|| panic!("no JSON: {}", text));
        let outside = serde_json::from_str::<serde_json::Value>(text).unwrap();
        let decoded = serde_json::from_value::<OpenAPI>(outside);
        assert_eq!(accepts_tree(&tree), decoded.is_ok(), "{}", text);
        if let Ok(decoded) = decoded {
            accepted += 1;
            let document = match decode_document(&tree) {
                Ok(document) => document,
                Err(error) => panic!("accepted and not read: {}: {:?}", text, error),
            };
            assert_eq!(lines_read(&document), lines_decoded(&decoded), "{}", text);
        }
    }
    accepted
}

fn document(members: &str) -> String {
    format!(r##"{{"openapi":"3.0.0","info":{{"title":"T","version":"1"}},{}}}"##, members)
}

fn with_operation(members: &str) -> String {
    document(&format!(r##""paths":{{"/a":{{"get":{{{}}}}}}}"##, members))
}

const VALUES: [&str; 12] = [
    "null",
    "true",
    "7",
    "1.5",
    r##""text""##,
    r##""""##,
    "[]",
    "{}",
    r##"[null]"##,
    r##"["a"]"##,
    r##"[{}]"##,
    r##"{"$ref":"#/components/x/A"}"##,
];

#[test]
fn what_is_accepted_at_the_root_reads_as_the_decoder_holds_it() {
    let mut texts = Vec::new();
    for key in ["paths", "servers", "components", "tags", "security", "externalDocs", "x-a"] {
        for value in VALUES {
            texts.push(document(&format!(r##""{}":{}"##, key, value)));
            texts.push(document(&format!(r##""paths":{{}},"{}":{}"##, key, value)));
        }
    }
    for value in VALUES {
        texts.push(document(&format!(r##""paths":{{"/a":{}}}"##, value)));
        texts.push(document(&format!(r##""paths":{{"a":{}}}"##, value)));
        texts.push(document(&format!(r##""paths":{{"x-a":{}}}"##, value)));
        texts.push(document(&format!(r##""paths":{{}},"servers":[{}]"##, value)));
        texts.push(document(&format!(r##""paths":{{}},"servers":[{{"url":{}}}]"##, value)));
        texts.push(document(&format!(
            r##""paths":{{}},"servers":[{{"url":"u","description":{}}}]"##,
            value
        )));
        texts.push(document(&format!(r##""paths":{{}},"components":{{"schemas":{}}}"##, value)));
        texts.push(document(&format!(
            r##""paths":{{}},"components":{{"schemas":{{"A":{}}}}}"##,
            value
        )));
        texts.push(document(&format!(
            r##""paths":{{}},"components":{{"parameters":{}}}"##,
            value
        )));
    }
    assert!(accepted_among(&texts) > 20);
}

#[test]
fn what_is_accepted_in_a_path_item_reads_as_the_decoder_holds_it() {
    let mut texts = Vec::new();
    let keys = [
        "get", "put", "post", "delete", "options", "head", "patch", "trace", "parameters",
        "servers", "summary", "description", "$ref", "x-a", "other",
    ];
    for key in keys {
        for value in VALUES {
            texts.push(document(&format!(r##""paths":{{"/a":{{"{}":{}}}}}"##, key, value)));
        }
    }
    assert!(accepted_among(&texts) > 20);
}

#[test]
fn what_is_accepted_in_an_operation_reads_as_the_decoder_holds_it() {
    let mut texts = Vec::new();
    let keys = [
        "operationId", "summary", "description", "tags", "parameters", "requestBody",
        "responses", "deprecated", "security", "servers", "callbacks", "externalDocs", "x-a",
    ];
    for key in keys {
        for value in VALUES {
            texts.push(with_operation(&format!(r##""{}":{}"##, key, value)));
            texts.push(with_operation(&format!(r##""responses":{{}},"{}":{}"##, key, value)));
        }
    }
    assert!(accepted_among(&texts) > 20);
}

#[test]
fn what_is_accepted_in_a_parameter_reads_as_the_decoder_holds_it() {
    let mut texts = Vec::new();
    let keys = [
        "name", "in", "description", "required", "deprecated", "schema", "content", "style",
        "explode", "example", "examples", "allowEmptyValue", "allowReserved", "x-a",
    ];
    for place in ["query", "path", "header", "cookie", "body", "formData", "Query"] {
        for key in keys {
            for value in VALUES {
                texts.push(with_operation(&format!(
                    r##""responses":{{}},"parameters":[{{"name":"n","in":"{}","schema":{{"type":"string"}},"{}":{}}}]"##,
                    place, key, value
                )));
                texts.push(with_operation(&format!(
                    r##""responses":{{}},"parameters":[{{"name":"n","in":"{}","{}":{}}}]"##,
                    place, key, value
                )));
            }
        }
    }
    for value in VALUES {
        texts.push(with_operation(&format!(
            r##""responses":{{}},"parameters":[{{"name":"n","in":"path","required":true,"content":{{"text/plain":{}}}}}]"##,
            value
        )));
        texts.push(with_operation(&format!(
            r##""responses":{{}},"parameters":[{{"$ref":"#/components/parameters/P","name":{}}}]"##,
            value
        )));
    }
    assert!(accepted_among(&texts) > 20);
}

#[test]
fn what_is_accepted_in_a_request_body_reads_as_the_decoder_holds_it() {
    let mut texts = Vec::new();
    for key in ["content", "description", "required", "$ref", "x-a"] {
        for value in VALUES {
            texts.push(with_operation(&format!(
                r##""responses":{{}},"requestBody":{{"{}":{}}}"##,
                key, value
            )));
            texts.push(with_operation(&format!(
                r##""responses":{{}},"requestBody":{{"content":{{}},"{}":{}}}"##,
                key, value
            )));
        }
    }
    for key in ["schema", "example", "examples", "encoding", "x-a"] {
        for value in VALUES {
            texts.push(with_operation(&format!(
                r##""responses":{{}},"requestBody":{{"content":{{"application/json":{{"{}":{}}}}}}}"##,
                key, value
            )));
        }
    }
    for value in VALUES {
        texts.push(with_operation(&format!(
            r##""responses":{{}},"requestBody":{{"content":{{"application/json":{}}}}}"##,
            value
        )));
    }
    assert!(accepted_among(&texts) > 20);
}

#[test]
fn what_is_accepted_in_the_responses_reads_as_the_decoder_holds_it() {
    let mut texts = Vec::new();
    let keys = [
        "200", "2XX", "2xx", "2xX", "default", "099", "100", "999", "1000", "20", "2x", "abc",
        "x-a", "", "Default", "٢٠٠", "+20", "-20", " 20", "2 0",
    ];
    for key in keys {
        for value in VALUES {
            texts.push(with_operation(&format!(r##""responses":{{"{}":{}}}"##, key, value)));
            texts.push(with_operation(&format!(
                r##""responses":{{"{}":{{"description":{}}}}}"##,
                key, value
            )));
            texts.push(with_operation(&format!(
                r##""responses":{{"{}":{{"description":"d","content":{}}}}}"##,
                key, value
            )));
        }
    }
    assert!(accepted_among(&texts) > 20);
}

#[test]
fn what_is_accepted_in_a_schema_reads_as_the_decoder_holds_it() {
    let mut texts = Vec::new();
    let keys = [
        "type", "properties", "required", "items", "enum", "format", "allOf", "oneOf", "anyOf",
        "not", "additionalProperties", "minimum", "maxLength", "nullable", "$ref", "x-a",
    ];
    for kind in ["string", "integer", "number", "boolean", "object", "array", "null"] {
        for key in keys {
            for value in VALUES {
                texts.push(document(&format!(
                    r##""paths":{{}},"components":{{"schemas":{{"A":{{"type":"{}","{}":{}}}}}}}"##,
                    kind, key, value
                )));
            }
        }
        for value in VALUES {
            texts.push(document(&format!(
                r##""paths":{{}},"components":{{"schemas":{{"A":{{"type":"object","properties":{{"p":{},"q":{{"type":"{}"}}}}}}}}}}"##,
                value, kind
            )));
            texts.push(document(&format!(
                r##""paths":{{}},"components":{{"schemas":{{"A":{{"type":"array","items":{{"type":"{}","items":{}}}}}}}}}"##,
                kind, value
            )));
            texts.push(document(&format!(
                r##""paths":{{}},"components":{{"schemas":{{"A":{{"type":"object","required":[{}],"properties":{{"p":{{"type":"{}"}}}}}}}}}}"##,
                value, kind
            )));
        }
    }
    assert!(accepted_among(&texts) > 20);
}
