use curlgenerator::text::{
    capitalize_first, is_http_url, replace, starts_with_text, to_pascal_case, to_snake_case,
};

#[test]
fn test_capitalize_first() {
    assert_eq!(capitalize_first("hello"), "Hello");
    assert_eq!(capitalize_first("HELLO"), "HELLO");
    assert_eq!(capitalize_first("h"), "H");
    assert_eq!(capitalize_first(""), "");
}

#[test]
fn test_to_pascal_case() {
    assert_eq!(to_pascal_case("hello_world"), "HelloWorld");
    assert_eq!(to_pascal_case("get_user_by_id"), "GetUserById");
    assert_eq!(to_pascal_case("_leading_underscore"), "LeadingUnderscore");
    assert_eq!(to_pascal_case("trailing_"), "Trailing");
    assert_eq!(to_pascal_case(""), "");
}

#[test]
fn test_to_snake_case() {
    assert_eq!(to_snake_case("Hello-World"), "hello_world");
    assert_eq!(to_snake_case("user-id"), "user_id");
    assert_eq!(to_snake_case("UPPER-CASE"), "upper_case");
    assert_eq!(to_snake_case("already_snake"), "already_snake");
}

#[test]
fn capitalize_first_expands_a_character_with_a_longer_upper_case() {
    assert_eq!(capitalize_first("ßa"), "SSa");
}

#[test]
fn pascal_case_drops_runs_of_underscores() {
    assert_eq!(to_pascal_case("a__b___c"), "ABC");
    assert_eq!(to_pascal_case("___"), "");
}

#[test]
fn replace_takes_occurrences_from_the_left_without_overlap() {
    assert_eq!(replace("aaa", "aa", "b"), "ba");
    assert_eq!(replace("a-b-c", "-", "_"), "a_b_c");
    assert_eq!(replace("abc", "abcd", "x"), "abc");
    assert_eq!(replace("{id}/{id}", "{id}", "${id}"), "${id}/${id}");
    assert_eq!(replace("", "x", "y"), "");
}

#[test]
fn starts_with_text_compares_whole_prefixes() {
    assert!(starts_with_text("2.0", "2."));
    assert!(!starts_with_text("2", "2."));
    assert!(starts_with_text("abc", ""));
    assert!(!starts_with_text("3.0.0", "2."));
}

#[test]
fn is_http_url_tells_urls_from_paths() {
    assert!(is_http_url("http://example.com/api.json"));
    assert!(is_http_url("https://example.com/api.yaml"));
    assert!(!is_http_url("./petstore.json"));
    assert!(!is_http_url("ftp://example.com"));
    assert!(!is_http_url("HTTP://example.com"));
}
