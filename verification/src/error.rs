//! The error type of the library.

use vstd::prelude::*;

use crate::text::{decimal, push_chars, push_decimal, push_str, string_of};

verus! {

/// Everything that can go wrong in the library. Outside failures (file
/// system, YAML, JSON, SQLite) arrive here as their message.
#[derive(Debug, Clone, PartialEq)]
pub enum ParcError {
    VaultNotFound(String),
    VaultAlreadyExists(String),
    FragmentNotFound(String),
    AmbiguousId(String, usize),
    SchemaNotFound(String),
    ValidationError(String),
    IndexError(String),
    ParseError(String),
    Io(String),
    Yaml(String),
    Json(String),
    Sqlite(String),
    PluginError(String),
}

/// The human-readable message of an error.
pub open spec fn error_message(e: ParcError) -> Seq<char> {
    match e {
        ParcError::VaultNotFound(p) => "vault not found: "@ + p@,
        ParcError::VaultAlreadyExists(p) => "vault already exists: "@ + p@,
        ParcError::FragmentNotFound(s) => "fragment not found: "@ + s@,
        ParcError::AmbiguousId(s, n) => "ambiguous ID prefix '"@ + s@ + "': matches "@ + decimal(
            n as nat,
        ) + " fragments"@,
        ParcError::SchemaNotFound(s) => "schema not found for type: "@ + s@,
        ParcError::ValidationError(s) => "validation error: "@ + s@,
        ParcError::IndexError(s) => "index error: "@ + s@,
        ParcError::ParseError(s) => "parse error: "@ + s@,
        ParcError::Io(s) => "IO error: "@ + s@,
        ParcError::Yaml(s) => "YAML error: "@ + s@,
        ParcError::Json(s) => "JSON error: "@ + s@,
        ParcError::Sqlite(s) => "SQLite error: "@ + s@,
        ParcError::PluginError(s) => "plugin error: "@ + s@,
    }
}

fn prefixed(prefix: &str, body: &String) -> (r: String)
    ensures
        r@ == prefix@ + body@,
{
    let mut out: Vec<char> = Vec::new();
    push_str(&mut out, prefix);
    let b = crate::text::chars_of(body.as_str());
    push_chars(&mut out, &b);
    string_of(&out)
}

impl ParcError {
    /// The message this error prints as.
    pub fn message(&self) -> (r: String)
        ensures
            r@ == error_message(*self),
    {
        match self {
            ParcError::VaultNotFound(p) => prefixed("vault not found: ", p),
            ParcError::VaultAlreadyExists(p) => prefixed("vault already exists: ", p),
            ParcError::FragmentNotFound(s) => prefixed("fragment not found: ", s),
            ParcError::AmbiguousId(s, n) => {
                let mut out: Vec<char> = Vec::new();
                push_str(&mut out, "ambiguous ID prefix '");
                let b = crate::text::chars_of(s.as_str());
                push_chars(&mut out, &b);
                push_str(&mut out, "': matches ");
                push_decimal(&mut out, *n);
                push_str(&mut out, " fragments");
                string_of(&out)
            },
            ParcError::SchemaNotFound(s) => prefixed("schema not found for type: ", s),
            ParcError::ValidationError(s) => prefixed("validation error: ", s),
            ParcError::IndexError(s) => prefixed("index error: ", s),
            ParcError::ParseError(s) => prefixed("parse error: ", s),
            ParcError::Io(s) => prefixed("IO error: ", s),
            ParcError::Yaml(s) => prefixed("YAML error: ", s),
            ParcError::Json(s) => prefixed("JSON error: ", s),
            ParcError::Sqlite(s) => prefixed("SQLite error: ", s),
            ParcError::PluginError(s) => prefixed("plugin error: ", s),
        }
    }
}

} // verus!
