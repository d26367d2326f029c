//! From the text of a description to the canonical document: the dialect is
//! detected, a legacy description is converted by the first way that gives a
//! document, and what no way reads is reported.

use crate::convert::{
    respecified_tree, respecify_tree, upgrade_tree, upgraded_tree,
};
use crate::decode::{decode_document, decoded};
use crate::document::{Document, DocumentView};
use crate::error::{CurlGeneratorError, ErrorView};
use crate::interop::{
    accepts_tree, canonical, canonical_tree_accepted, compact_text, json_parsed, parse_json,
    parse_yaml, permissive_read, permissively_accepted, reread_tree, to_text, yaml_parsed, Reread,
};
use crate::json::{option_view, well_keyed, Json, JsonValue};
use crate::legacy::{convert_v2_spec_to_v3, rebuilt_tree};
use crate::normalized::{document_is_free, law_converted_document_is_free};
use crate::text::{starts_with, starts_with_text};
use vstd::prelude::*;

verus! {

/// The mathematical model of what parsing gives.
pub enum ParsedView {
    Ready(DocumentView),
    Convert(Seq<char>),
}

/// What parsing a description gives: the document, or the request to have a
/// legacy description converted by the hosted service.
#[derive(Debug, PartialEq)]
pub enum Parsed {
    /// The canonical document.
    Ready(Document),
    /// No local conversion gave a document: this JSON text is to be posted to
    /// the conversion service, and its answer handed to `parse_converted`.
    Convert(String),
}

impl View for Parsed {
    type V = ParsedView;

    open spec fn view(&self) -> ParsedView {
        match self {
            Parsed::Ready(document) => ParsedView::Ready(document@),
            Parsed::Convert(payload) => ParsedView::Convert(payload@),
        }
    }
}

/// The model of a result.
pub open spec fn result_view<T: View, E: View>(result: Result<T, E>) -> Result<T::V, E::V> {
    match result {
        Ok(value) => Ok(value@),
        Err(error) => Err(error@),
    }
}

// ---------------------------------------------------------------------------
// One way from a tree to a document
// ---------------------------------------------------------------------------
/// The message of a conversion whose result is no canonical document.
pub open spec fn not_canonical() -> Seq<char> {
    "the converted description is not a valid OpenAPI v3 document"@
}

/// The message of a conversion whose result is canonical but does not read
/// as a document.
pub open spec fn not_readable() -> Seq<char> {
    "the converted description does not read as a document"@
}

/// The document that a converted tree is read as once it is accepted as
/// canonical. A tree that is not accepted, or that does not read as a
/// document, is a failed conversion.
pub open spec fn accepted_reading(tree: Json) -> Result<DocumentView, ErrorView> {
    if canonical_tree_accepted(canonical(tree)) {
        match decoded(tree) {
            Ok(document) => Ok(document),
            Err(_) => Err(ErrorView::ConversionError(not_readable())),
        }
    } else {
        Err(ErrorView::ConversionError(not_canonical()))
    }
}

/// The document at the end of one way of conversion: the converted tree has
/// to be accepted as canonical and to read as a document.
pub open spec fn converted_reading(converted: Result<Json, ErrorView>) -> Result<
    DocumentView,
    ErrorView,
> {
    match converted {
        Ok(tree) => accepted_reading(tree),
        Err(error) => Err(error),
    }
}

/// Reads a tree as a document once it is accepted as canonical.
pub fn read_accepted(tree: &JsonValue) -> (document: Result<Document, CurlGeneratorError>)
    ensures
        result_view(document) == accepted_reading(tree@),
{
    if accepts_tree(tree) {
        match decode_document(tree) {
            Ok(document) => Ok(document),
            Err(_) => Err(
                CurlGeneratorError::ConversionError(
                    String::from_str("the converted description does not read as a document"),
                ),
            ),
        }
    } else {
        Err(
            CurlGeneratorError::ConversionError(
                String::from_str("the converted description is not a valid OpenAPI v3 document"),
            ),
        )
    }
}

/// Reads the result of a conversion as a document.
fn read_converted(converted: Result<JsonValue, CurlGeneratorError>) -> (document: Result<
    Document,
    CurlGeneratorError,
>)
    ensures
        result_view(document) == converted_reading(result_view(converted)),
{
    match converted {
        Ok(tree) => read_accepted(&tree),
        Err(error) => Err(error),
    }
}

/// Converts a legacy description by rewriting its tree; the parameters that
/// path items share among their operations stay as they are.
pub fn convert_swagger_v2_to_v3(spec: &JsonValue) -> (document: Result<
    Document,
    CurlGeneratorError,
>)
    ensures
        result_view(document) == converted_reading(upgraded_tree(spec@, false)),
{
    read_converted(upgrade_tree(spec, false))
}

/// Converts a legacy description by rewriting its tree, the parameters that
/// path items share among their operations included.
pub fn convert_swagger_v2_manual(spec: &JsonValue) -> (document: Result<
    Document,
    CurlGeneratorError,
>)
    ensures
        result_view(document) == converted_reading(upgraded_tree(spec@, true)),
{
    read_converted(upgrade_tree(spec, true))
}

/// Converts a legacy description by building a canonical tree afresh from
/// the members that it must have.
pub fn convert_swagger_v2_locally(spec: &JsonValue) -> (document: Result<
    Document,
    CurlGeneratorError,
>)
    ensures
        result_view(document) == converted_reading(rebuilt_tree(spec@)),
{
    read_converted(convert_v2_spec_to_v3(spec))
}

/// Converts a description that the permissive reader understood.
pub fn convert_spec_to_openapi_v3(spec: &JsonValue) -> (document: Result<
    Document,
    CurlGeneratorError,
>)
    ensures
        result_view(document) == accepted_reading(respecified_tree(spec@)),
{
    read_accepted(&respecify_tree(spec))
}

// ---------------------------------------------------------------------------
// The chain
// ---------------------------------------------------------------------------
/// The description declares a Swagger 2.x version.
pub open spec fn is_legacy(tree: Json) -> bool {
    match tree.get_str("swagger"@) {
        Some(version) => starts_with(version, "2."@),
        None => false,
    }
}

/// What the local ways of conversion give for a legacy description, tried
/// in order: the document of the first way that gives one.
pub open spec fn legacy_reading(tree: Json) -> Option<DocumentView> {
    match converted_reading(upgraded_tree(tree, true)) {
        Ok(document) => Some(document),
        Err(_) => match converted_reading(rebuilt_tree(tree)) {
            Ok(document) => Some(document),
            Err(_) => None,
        },
    }
}

/// What parsing gives for a legacy description: the document of the first
/// local way that gives one, else the request for the hosted conversion.
pub open spec fn legacy_outcome(tree: Json) -> ParsedView {
    match legacy_reading(tree) {
        Some(document) => ParsedView::Ready(document),
        None => ParsedView::Convert(compact_text(canonical(tree))),
    }
}

/// What parsing gives for a description of no recognized dialect, given
/// what the permissive reader made of it.
pub open spec fn unrecognized_outcome(reread: Option<Json>) -> Result<ParsedView, ErrorView> {
    match reread {
        Some(tree) => match accepted_reading(respecified_tree(tree)) {
            Ok(document) => Ok(ParsedView::Ready(document)),
            Err(_) => Err(ErrorView::UnsupportedDialect),
        },
        None => Err(ErrorView::UnsupportedDialect),
    }
}

/// Whether a text decodes to a tree that is accepted as a canonical
/// document.
pub open spec fn decodes_canonical(decoded_tree: Option<Json>) -> bool {
    match decoded_tree {
        Some(tree) => canonical_tree_accepted(canonical(tree)),
        None => false,
    }
}

/// The document that a text decodes as directly, where its tree is accepted
/// as a canonical document: the tree of the text as JSON first, then the
/// tree of the text as YAML.
pub open spec fn direct_reading(content: Seq<char>) -> Option<Result<DocumentView, ErrorView>> {
    if decodes_canonical(json_parsed(content)) {
        Some(decoded(json_parsed(content)->0))
    } else if decodes_canonical(yaml_parsed(content)) {
        Some(decoded(yaml_parsed(content)->0))
    } else {
        None
    }
}

/// The tree that a text decodes as: as JSON first, then as YAML.
pub open spec fn generic_tree(content: Seq<char>) -> Option<Json> {
    match json_parsed(content) {
        Some(tree) => Some(tree),
        None => yaml_parsed(content),
    }
}

/// What parsing a text gives, given what the permissive reader made of its
/// tree (which matters only where the text is of no recognized dialect).
pub open spec fn parse_outcome(content: Seq<char>, reread: Option<Json>) -> Result<
    ParsedView,
    ErrorView,
> {
    match direct_reading(content) {
        Some(Ok(document)) => Ok(ParsedView::Ready(document)),
        Some(Err(error)) => Err(error),
        None => match generic_tree(content) {
            None => Err(ErrorView::OpenApiParseError("Failed to parse as JSON or YAML"@)),
            Some(tree) => if is_legacy(tree) {
                Ok(legacy_outcome(tree))
            } else {
                unrecognized_outcome(reread)
            },
        },
    }
}

/// A canonical description is read as it is: where the tree of a text is
/// accepted as a canonical document, parsing gives exactly what that tree
/// reads as, and no conversion and no other reader has a part in it.
pub proof fn law_canonical_is_read_unchanged(content: Seq<char>, reread: Option<Json>)
    ensures
        decodes_canonical(json_parsed(content)) ==> parse_outcome(content, reread) == match decoded(
            json_parsed(content)->0,
        ) {
            Ok(document) => Ok::<ParsedView, ErrorView>(ParsedView::Ready(document)),
            Err(error) => Err::<ParsedView, ErrorView>(error),
        },
        !decodes_canonical(json_parsed(content)) && decodes_canonical(yaml_parsed(content))
            ==> parse_outcome(content, reread) == match decoded(yaml_parsed(content)->0) {
            Ok(document) => Ok::<ParsedView, ErrorView>(ParsedView::Ready(document)),
            Err(error) => Err::<ParsedView, ErrorView>(error),
        },
{
}

/// The tree of a text as JSON, where it is accepted as a canonical document.
fn canonical_json(content: &str) -> (tree: Option<JsonValue>)
    ensures
        tree is Some <==> decodes_canonical(json_parsed(content@)),
        tree matches Some(found) ==> json_parsed(content@) == Some(found@) && well_keyed(found@),
{
    match parse_json(content) {
        Some(tree) => if accepts_tree(&tree) {
            Some(tree)
        } else {
            None
        },
        None => None,
    }
}

/// The tree of a text as YAML, where it is accepted as a canonical document.
fn canonical_yaml(content: &str) -> (tree: Option<JsonValue>)
    ensures
        tree is Some <==> decodes_canonical(yaml_parsed(content@)),
        tree matches Some(found) ==> yaml_parsed(content@) == Some(found@) && well_keyed(found@),
{
    match parse_yaml(content) {
        Some(tree) => if accepts_tree(&tree) {
            Some(tree)
        } else {
            None
        },
        None => None,
    }
}

/// The document that a text decodes as directly.
fn read_directly(content: &str) -> (direct: Option<Result<Document, CurlGeneratorError>>)
    ensures
        match direct {
            Some(document) => direct_reading(content@) == Some(result_view(document)),
            None => direct_reading(content@) is None,
        },
{
    match canonical_json(content) {
        Some(tree) => Some(decode_document(&tree)),
        None => match canonical_yaml(content) {
            Some(tree) => Some(decode_document(&tree)),
            None => None,
        },
    }
}

/// Whether a description declares a Swagger 2.x version.
pub fn detect_legacy(tree: &JsonValue) -> (legacy: bool)
    ensures
        legacy == is_legacy(tree@),
{
    match tree.get_str("swagger") {
        Some(version) => starts_with_text(version, "2."),
        None => false,
    }
}

/// Converts a legacy description by the first local way that gives a
/// document, or asks for the hosted conversion.
pub fn normalize_legacy(tree: &JsonValue) -> (parsed: Parsed)
    ensures
        parsed@ == legacy_outcome(tree@),
        parsed@ matches ParsedView::Ready(document) ==> document_is_free(document),
{
    proof {
        if legacy_reading(tree@) is Some {
            law_converted_document_is_free(tree@, legacy_reading(tree@)->0);
        }
    }
    match convert_swagger_v2_manual(tree) {
        Ok(document) => Parsed::Ready(document),
        Err(_) => match convert_swagger_v2_locally(tree) {
            Ok(document) => Parsed::Ready(document),
            Err(_) => Parsed::Convert(to_text(tree)),
        },
    }
}

/// Finishes the parsing of a description of no recognized dialect with what
/// the permissive reader made of it.
pub fn finish_unrecognized(reread: Option<JsonValue>) -> (parsed: Result<
    Parsed,
    CurlGeneratorError,
>)
    ensures
        result_view(parsed) == unrecognized_outcome(option_view(reread)),
{
    match reread {
        Some(tree) => match convert_spec_to_openapi_v3(&tree) {
            Ok(document) => Ok(Parsed::Ready(document)),
            Err(_) => Err(CurlGeneratorError::UnsupportedDialect),
        },
        None => Err(CurlGeneratorError::UnsupportedDialect),
    }
}

/// Parses the text of a description into the canonical document.
///
/// A text that is accepted as a canonical document is read as it is. Any
/// other text has to decode as JSON or YAML. A legacy description is then
/// converted by the first local way that gives a document; where none does,
/// the conversion by the hosted service is asked for. What is of no
/// recognized dialect is handed to the permissive reader, and is an
/// unsupported dialect where that gives no document.
pub fn parse_openapi(content: &str) -> (parsed: Result<Parsed, CurlGeneratorError>)
    ensures
        exists|reread: Option<Json>| result_view(parsed) == #[trigger] parse_outcome(
            content@,
            reread,
        ),
        direct_reading(content@) is Some || generic_tree(content@) is None || is_legacy(
            generic_tree(content@)->0,
        ) ==> result_view(parsed) == parse_outcome(content@, None),
        direct_reading(content@) is None && generic_tree(content@) is Some && is_legacy(
            generic_tree(content@)->0,
        ) ==> (result_view(parsed) matches Ok(ParsedView::Ready(document)) ==> document_is_free(
            document,
        )),
        direct_reading(content@) is None && generic_tree(content@) is Some && !is_legacy(
            generic_tree(content@)->0,
        ) && !permissively_accepted(canonical(generic_tree(content@)->0)) ==> result_view(parsed)
            == Err::<ParsedView, ErrorView>(ErrorView::UnsupportedDialect),
{
    match read_directly(content) {
        Some(document) => {
            let parsed = match document {
                Ok(found) => Ok(Parsed::Ready(found)),
                Err(error) => Err(error),
            };
            assert(result_view(parsed) == parse_outcome(content@, None));
            return parsed;
        },
        None => {},
    }
    let tree = match parse_json(content) {
        Some(tree) => Some(tree),
        None => parse_yaml(content),
    };
    let tree = match tree {
        Some(tree) => tree,
        None => {
            let parsed = Err(
                CurlGeneratorError::OpenApiParseError(
                    String::from_str("Failed to parse as JSON or YAML"),
                ),
            );
            assert(result_view(parsed) == parse_outcome(content@, None));
            return parsed;
        },
    };
    if detect_legacy(&tree) {
        let parsed = Ok(normalize_legacy(&tree));
        assert(result_view(parsed) == parse_outcome(content@, None));
        parsed
    } else {
        let reread = permissive_read(&tree);
        let ghost seen = reread_tree(reread);
        let parsed = match reread {
            Reread::Tree(found) => finish_unrecognized(Some(found)),
            _ => finish_unrecognized(None),
        };
        assert(result_view(parsed) == parse_outcome(content@, seen));
        parsed
    }
}

/// The document that the answer of the conversion service is read as: it
/// has to be accepted as a canonical document, as JSON or as YAML.
pub open spec fn converted_outcome(answer: Seq<char>) -> Result<DocumentView, ErrorView> {
    match direct_reading(answer) {
        Some(Ok(document)) => Ok(document),
        _ => Err(
            ErrorView::ConversionError("Failed to parse converted OpenAPI v3 specification"@),
        ),
    }
}

/// Reads the answer of the conversion service.
pub fn parse_converted(answer: &str) -> (document: Result<Document, CurlGeneratorError>)
    ensures
        result_view(document) == converted_outcome(answer@),
{
    let direct = read_directly(answer);
    match direct {
        Some(Ok(document)) => Ok(document),
        _ => Err(
            CurlGeneratorError::ConversionError(
                String::from_str("Failed to parse converted OpenAPI v3 specification"),
            ),
        ),
    }
}

} // verus!
