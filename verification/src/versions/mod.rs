//! Per-version data structures and parsing logic.
use vstd::prelude::*;

pub mod common;
mod pixel;
pub mod v2;
pub mod v3;

use crate::error::ParseError;

verus! {

/// Marker type for asciicast v1.
#[derive(Debug, Clone, Copy, PartialEq, Eq, Structural)]
pub struct V1;

/// Marker type for asciicast v2.
#[derive(Debug, Clone, Copy, PartialEq, Eq, Structural)]
pub struct V2;

/// Marker type for asciicast v3.
#[derive(Debug, Clone, Copy, PartialEq, Eq, Structural)]
pub struct V3;


impl V1 {
    /// The numeric version as it appears in a file's `version` field.
    pub const NUMBER: u8 = 1;
    /// Frame delays are relative to the previous frame.
    pub const RELATIVE_TIMING: bool = true;
}

impl V2 {
    /// The numeric version as it appears in a file's `version` field.
    pub const NUMBER: u8 = 2;
    /// Event times are absolute (seconds since the start of the recording).
    pub const RELATIVE_TIMING: bool = false;
    /// `#`-prefixed lines are not comments in v2.
    pub const SKIP_COMMENTS: bool = false;
}

impl V3 {
    /// The numeric version as it appears in a file's `version` field.
    pub const NUMBER: u8 = 3;
    /// Event intervals are relative to the previous event.
    pub const RELATIVE_TIMING: bool = true;
    /// `#`-prefixed lines are comments in v3.
    pub const SKIP_COMMENTS: bool = true;
}

/// A version detected from a recording's `version` field.
#[derive(Debug, Clone, Copy, PartialEq, Eq, Structural)]
pub enum DetectedVersion {
    /// asciicast v1.
    V1,
    /// asciicast v2.
    V2,
    /// asciicast v3.
    V3,
}

/// The supported version whose number is `found`, or `UnknownVersion`.
pub fn detect_version(found: u8) -> (r: Result<DetectedVersion, ParseError>)
    ensures
        r == detect_version_spec(found),
{
    if found == V1::NUMBER {
        Ok(DetectedVersion::V1)
    } else if found == V2::NUMBER {
        Ok(DetectedVersion::V2)
    } else if found == V3::NUMBER {
        Ok(DetectedVersion::V3)
    } else {
        Err(ParseError::UnknownVersion(found))
    }
}

/// Decide a recording's version from two probes of its `version` field: the
/// whole input read as one JSON document (`whole_document`, which succeeds for
/// v1 and for header-only recordings), else its header line (`header_line`:
/// `None` where the input has no non-blank line, else the result of reading it).
pub fn resolve_version(whole_document: Option<u8>, header_line: Option<Result<u8, ParseError>>) -> (r:
    Result<DetectedVersion, ParseError>)
    ensures
        match whole_document {
            Some(v) => r == detect_version_spec(v),
            None => match header_line {
                None => r == Err::<DetectedVersion, ParseError>(ParseError::MissingHeader),
                Some(Err(e)) => r == Err::<DetectedVersion, ParseError>(e),
                Some(Ok(v)) => r == detect_version_spec(v),
            },
        },
{
    match whole_document {
        Some(v) => detect_version(v),
        None => match header_line {
            None => Err(ParseError::MissingHeader),
            Some(Err(e)) => Err(e),
            Some(Ok(v)) => detect_version(v),
        },
    }
}

/// The supported version whose number is `found`, or `UnknownVersion`.
pub open spec fn detect_version_spec(found: u8) -> Result<DetectedVersion, ParseError> {
    if found == 1 {
        Ok(DetectedVersion::V1)
    } else if found == 2 {
        Ok(DetectedVersion::V2)
    } else if found == 3 {
        Ok(DetectedVersion::V3)
    } else {
        Err(ParseError::UnknownVersion(found))
    }
}

} // verus!
