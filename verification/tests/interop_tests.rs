use curlgenerator::interop::{
    decimal_zero_value, integer_value, parse_json, parse_yaml, to_pretty_text, to_text,
};
use curlgenerator::json::{JsonValue, Member};

#[test]
fn parse_json_builds_the_tree_in_document_order() {
    let parsed = parse_json(r##"{"b": [1, true, null], "a": "x"}"##).unwrap();
    let expected = JsonValue::Object(vec![
        Member {
            key: "b".to_string(),
            value: JsonValue::Array(vec![
                JsonValue::Number(1.into()),
                JsonValue::Bool(true),
                JsonValue::Null,
            ]),
        },
        Member { key: "a".to_string(), value: JsonValue::String("x".to_string()) },
    ]);
    assert_eq!(parsed, expected);
}

#[test]
fn parse_json_refuses_what_is_not_json() {
    assert_eq!(parse_json("{invalid json}"), None);
}

#[test]
fn parse_yaml_reads_a_mapping() {
    let parsed = parse_yaml("swagger: \"2.0\"\nhost: example.com\n").unwrap();
    assert_eq!(parsed.get_str("swagger"), Some("2.0"));
    assert_eq!(parsed.get_str("host"), Some("example.com"));
}

#[test]
fn to_text_writes_one_line() {
    let tree = JsonValue::Object(vec![
        Member { key: "a".to_string(), value: JsonValue::Array(vec![JsonValue::Bool(false)]) },
        Member { key: "b".to_string(), value: JsonValue::String("q\"".to_string()) },
    ]);
    assert_eq!(to_text(&tree), r##"{"a":[false],"b":"q\""}"##);
}

#[test]
fn to_pretty_text_indents_by_two_spaces() {
    let tree = JsonValue::Object(vec![Member {
        key: "a".to_string(),
        value: JsonValue::Number(0.into()),
    }]);
    assert_eq!(to_pretty_text(&tree), Some("{\n  \"a\": 0\n}".to_string()));
}

#[test]
fn a_repeated_key_collapses_into_its_first_place() {
    let tree = JsonValue::Object(vec![
        Member { key: "a".to_string(), value: JsonValue::Bool(false) },
        Member { key: "b".to_string(), value: JsonValue::Null },
        Member { key: "a".to_string(), value: JsonValue::Bool(true) },
    ]);
    assert_eq!(to_text(&tree), r##"{"a":true,"b":null}"##);
}

#[test]
fn numbers_are_written_in_decimal_digits() {
    assert_eq!(to_text(&decimal_zero_value()), "0.0");
    assert_eq!(to_text(&integer_value(0)), "0");
    assert_eq!(to_text(&integer_value(1234567890)), "1234567890");
    assert_eq!(to_text(&integer_value(18446744073709551615)), "18446744073709551615");
    assert_eq!(integer_value(7), curlgenerator::json::JsonValue::Number(7.into()));
}
