use curlgenerator::decode::read_schema;
use curlgenerator::document::Schema;
use curlgenerator::interop::parse_json;
use openapiv3::{ReferenceOr, SchemaKind, Type};

fn kind_read(text: &str) -> &'static str {
    match read_schema(&parse_json(text).unwrap()) {
        Schema::String => "string",
        Schema::Integer => "integer",
        Schema::Number => "number",
        Schema::Boolean => "boolean",
        Schema::Object { .. } => "object",
        Schema::Array { .. } => "array",
        Schema::Reference { .. } => "reference",
        Schema::Unknown => "unknown",
    }
}

fn kind_decoded(text: &str) -> &'static str {
    match serde_json::from_str::<ReferenceOr<openapiv3::Schema>>(text).unwrap() {
        ReferenceOr::Reference { .. } => "reference",
        ReferenceOr::Item(schema) => match schema.schema_kind {
            SchemaKind::Type(Type::String(_)) => "string",
            SchemaKind::Type(Type::Integer(_)) => "integer",
            SchemaKind::Type(Type::Number(_)) => "number",
            SchemaKind::Type(Type::Boolean(_)) => "boolean",
            SchemaKind::Type(Type::Object(_)) => "object",
            SchemaKind::Type(Type::Array(_)) => "array",
            _ => "unknown",
        },
    }
}

const KINDS: [&str; 7] = ["string", "integer", "number", "boolean", "object", "array", "other"];

const MEMBERS: [&str; 40] = [
    r##""pattern":"x""##,
    r##""multipleOf":2"##,
    r##""multipleOf":2.5"##,
    r##""exclusiveMinimum":true"##,
    r##""exclusiveMaximum":false"##,
    r##""minimum":1"##,
    r##""minimum":-1"##,
    r##""minimum":1.5"##,
    r##""maximum":9"##,
    r##""maximum":9.5"##,
    r##""maximum":18446744073709551615"##,
    r##""properties":{}"##,
    r##""properties":{"a":{"type":"string"}}"##,
    r##""required":[]"##,
    r##""required":["a"]"##,
    r##""additionalProperties":false"##,
    r##""minProperties":1"##,
    r##""maxProperties":2"##,
    r##""items":{"type":"string"}"##,
    r##""minItems":1"##,
    r##""maxItems":2"##,
    r##""uniqueItems":true"##,
    r##""enum":[]"##,
    r##""enum":[null]"##,
    r##""enum":["a",null]"##,
    r##""enum":[1,-2]"##,
    r##""enum":[1.5]"##,
    r##""enum":[9223372036854775808]"##,
    r##""enum":[true]"##,
    r##""enum":[{}]"##,
    r##""format":"f""##,
    r##""minLength":1"##,
    r##""maxLength":2"##,
    r##""oneOf":[]"##,
    r##""allOf":[{"type":"string"}]"##,
    r##""anyOf":[]"##,
    r##""not":{"type":"string"}"##,
    r##""description":"d","nullable":true,"x-note":7"##,
    r##""title":null,"default":3,"example":{"a":1}"##,
    r##""pattern":null,"items":null,"enum":null,"oneOf":null,"format":null,"minimum":null"##,
];

#[test]
fn a_schema_with_one_more_member_is_of_the_kind_that_the_decoder_gives_it() {
    for kind in KINDS {
        let bare = format!(r##"{{"type":"{}"}}"##, kind);
        assert_eq!(kind_read(&bare), kind_decoded(&bare), "{}", bare);
        for member in MEMBERS {
            let text = format!(r##"{{"type":"{}",{}}}"##, kind, member);
            assert_eq!(kind_read(&text), kind_decoded(&text), "{}", text);
        }
    }
}

#[test]
fn a_schema_with_two_more_members_is_of_the_kind_that_the_decoder_gives_it() {
    for kind in KINDS {
        for (at, first) in MEMBERS.iter().enumerate() {
            for second in MEMBERS[at + 1..].iter() {
                if first.split(':').next() == second.split(':').next() {
                    continue;
                }
                if first.contains("null") || second.contains("null,") || second.contains("\"title\"") {
                    continue;
                }
                let text = format!(r##"{{"type":"{}",{},{}}}"##, kind, first, second);
                assert_eq!(kind_read(&text), kind_decoded(&text), "{}", text);
            }
        }
    }
}

#[test]
fn a_schema_without_a_type_is_of_the_kind_that_the_decoder_gives_it() {
    for member in MEMBERS {
        let text = format!("{{{}}}", member);
        assert_eq!(kind_read(&text), kind_decoded(&text), "{}", text);
    }
    for text in [
        "{}",
        r##"{"type":null}"##,
        r##"{"type":null,"pattern":"x"}"##,
        r##"{"$ref":"#/components/schemas/A"}"##,
        r##"{"$ref":"#/components/schemas/A","type":"string"}"##,
        r##"{"$ref":"elsewhere","allOf":[]}"##,
    ] {
        assert_eq!(kind_read(text), kind_decoded(text), "{}", text);
    }
}
