//! Converts a simplified, TOML-like configuration dialect to JSON.
//!
//! Source text is split into named blocks (`[name]` headers followed by
//! `key = value` lines); each raw value is classified as a quoted string, an
//! inline brace-delimited object, or a passthrough literal, and the whole is
//! re-emitted as one JSON document.

pub mod error;
pub mod json;
pub mod text;
pub mod utils;
pub mod valid;
