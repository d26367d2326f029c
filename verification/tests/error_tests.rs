use curlgenerator::error::CurlGeneratorError;

fn assert_send_sync<T: Send + Sync>() {}

#[test]
fn test_openapi_parse_error() {
    let err = CurlGeneratorError::OpenApiParseError("test error".to_string());
    assert_eq!(err.message(), "Failed to parse OpenAPI document: test error");
}

#[test]
fn test_invalid_specification() {
    let err = CurlGeneratorError::InvalidSpecification;
    assert_eq!(err.message(), "Invalid OpenAPI specification");
}

#[test]
fn test_error_is_send_sync() {
    assert_send_sync::<CurlGeneratorError>();
}

#[test]
fn every_error_reports_its_kind_and_text() {
    assert_eq!(
        CurlGeneratorError::OpenApiLoadError("x".to_string()).message(),
        "Failed to load OpenAPI document: x"
    );
    assert_eq!(
        CurlGeneratorError::UnsupportedDialect.message(),
        "Unsupported dialect: neither OpenAPI v3.x nor Swagger v2.0"
    );
    assert_eq!(
        CurlGeneratorError::ConversionError("y".to_string()).message(),
        "Failed to convert Swagger v2.0 document: y"
    );
    assert_eq!(CurlGeneratorError::IoError("file not found".to_string()).message(), "IO error: file not found");
    assert_eq!(CurlGeneratorError::HttpError("h".to_string()).message(), "HTTP request failed: h");
    assert_eq!(CurlGeneratorError::JsonError("j".to_string()).message(), "JSON parsing error: j");
    assert_eq!(CurlGeneratorError::YamlError("k".to_string()).message(), "YAML parsing error: k");
}
