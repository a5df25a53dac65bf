//! Errors reported by the parsing logic.
use vstd::prelude::*;

verus! {

#[verifier::external_type_specification]
#[verifier::external_body]
pub struct ExIoError(std::io::Error);

#[verifier::external_type_specification]
#[verifier::external_body]
pub struct ExJsonError(serde_json::Error);

/// Errors that the parsing logic can report.
#[derive(Debug)]
pub enum ParseError {
    /// An I/O error occurred while reading the input.
    Io(std::io::Error),
    /// The input was not valid JSON for the expected shape.
    Json(serde_json::Error),
    /// The input did not contain a header line.
    MissingHeader,
    /// The `version` field held a value this crate does not support.
    UnknownVersion(u8),
    /// A specific version was requested but the input declared another.
    VersionMismatch {
        /// The version that was requested.
        expected: u8,
        /// The version found in the input.
        found: u8,
    },
    /// An event's payload could not be parsed (e.g. a malformed resize or exit).
    MalformedEvent(String),
}

} // verus!
