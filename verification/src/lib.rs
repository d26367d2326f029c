//! Generates one executable request script per operation of an API description.
//!
//! A description (OpenAPI 3.x or Swagger 2.0, in JSON or YAML) is parsed into
//! a tree (`json`, `interop`), a legacy description is rewritten into the
//! canonical shape (`convert`, `legacy`, `normalized`), the canonical tree is
//! read into a document (`decode`, `document`, `openapi`), and every
//! operation of the document is rendered as a script for the POSIX shell or
//! the Windows shell (`sample`, `generator`, `script`).

pub mod cli;
pub mod convert;
pub mod decode;
pub mod document;
pub mod error;
pub mod generator;
pub mod interop;
pub mod json;
pub mod legacy;
pub mod normalized;
pub mod openapi;
pub mod sample;
pub mod script;
pub mod statistics;
pub mod text;
