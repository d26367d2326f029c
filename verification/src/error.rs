//! What can go wrong while a description becomes a document.

use crate::text::concat;
use vstd::prelude::*;

verus! {

/// The mathematical model of an error: its kind and the text it carries.
pub enum ErrorView {
    OpenApiLoadError(Seq<char>),
    OpenApiParseError(Seq<char>),
    InvalidSpecification,
    UnsupportedDialect,
    ConversionError(Seq<char>),
    IoError(Seq<char>),
    HttpError(Seq<char>),
    JsonError(Seq<char>),
    YamlError(Seq<char>),
}

/// Why a run stopped.
#[derive(Debug, Clone, PartialEq, Eq)]
pub enum CurlGeneratorError {
    /// The source could not be obtained.
    OpenApiLoadError(String),
    /// The source is neither JSON nor YAML.
    OpenApiParseError(String),
    /// The description does not have the structure that a conversion relies on.
    InvalidSpecification,
    /// The source can be decoded but is of no dialect that is understood.
    UnsupportedDialect,
    /// No way of converting a legacy description gave a document.
    ConversionError(String),
    /// Reading or writing a file failed.
    IoError(String),
    /// A request over the network failed.
    HttpError(String),
    /// A JSON text could not be decoded.
    JsonError(String),
    /// A YAML text could not be decoded.
    YamlError(String),
}

impl View for CurlGeneratorError {
    type V = ErrorView;

    open spec fn view(&self) -> ErrorView {
        match self {
            CurlGeneratorError::OpenApiLoadError(m) => ErrorView::OpenApiLoadError(m@),
            CurlGeneratorError::OpenApiParseError(m) => ErrorView::OpenApiParseError(m@),
            CurlGeneratorError::InvalidSpecification => ErrorView::InvalidSpecification,
            CurlGeneratorError::UnsupportedDialect => ErrorView::UnsupportedDialect,
            CurlGeneratorError::ConversionError(m) => ErrorView::ConversionError(m@),
            CurlGeneratorError::IoError(m) => ErrorView::IoError(m@),
            CurlGeneratorError::HttpError(m) => ErrorView::HttpError(m@),
            CurlGeneratorError::JsonError(m) => ErrorView::JsonError(m@),
            CurlGeneratorError::YamlError(m) => ErrorView::YamlError(m@),
        }
    }
}

/// The message that an error is reported with.
pub open spec fn message_text(error: ErrorView) -> Seq<char> {
    match error {
        ErrorView::OpenApiLoadError(m) => "Failed to load OpenAPI document: "@ + m,
        ErrorView::OpenApiParseError(m) => "Failed to parse OpenAPI document: "@ + m,
        ErrorView::InvalidSpecification => "Invalid OpenAPI specification"@,
        ErrorView::UnsupportedDialect => "Unsupported dialect: neither OpenAPI v3.x nor Swagger v2.0"@,
        ErrorView::ConversionError(m) => "Failed to convert Swagger v2.0 document: "@ + m,
        ErrorView::IoError(m) => "IO error: "@ + m,
        ErrorView::HttpError(m) => "HTTP request failed: "@ + m,
        ErrorView::JsonError(m) => "JSON parsing error: "@ + m,
        ErrorView::YamlError(m) => "YAML parsing error: "@ + m,
    }
}

impl CurlGeneratorError {
    /// The message that the error is reported with.
    pub fn message(&self) -> (text: String)
        ensures
            text@ == message_text(self@),
    {
        match self {
            CurlGeneratorError::OpenApiLoadError(m) => concat(
                "Failed to load OpenAPI document: ",
                m.as_str(),
            ),
            CurlGeneratorError::OpenApiParseError(m) => concat(
                "Failed to parse OpenAPI document: ",
                m.as_str(),
            ),
            CurlGeneratorError::InvalidSpecification => String::from_str(
                "Invalid OpenAPI specification",
            ),
            CurlGeneratorError::UnsupportedDialect => String::from_str(
                "Unsupported dialect: neither OpenAPI v3.x nor Swagger v2.0",
            ),
            CurlGeneratorError::ConversionError(m) => concat(
                "Failed to convert Swagger v2.0 document: ",
                m.as_str(),
            ),
            CurlGeneratorError::IoError(m) => concat("IO error: ", m.as_str()),
            CurlGeneratorError::HttpError(m) => concat("HTTP request failed: ", m.as_str()),
            CurlGeneratorError::JsonError(m) => concat("JSON parsing error: ", m.as_str()),
            CurlGeneratorError::YamlError(m) => concat("YAML parsing error: ", m.as_str()),
        }
    }
}

} // verus!
