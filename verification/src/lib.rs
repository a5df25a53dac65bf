//! Parsing logic for `asciicast` terminal recordings (v1, v2 and v3).
//!
//! This crate holds the verified core: colour and palette parsing, event
//! payload typing, resize and exit-status payloads, line classification for
//! the newline-delimited formats, and version checks.
use vstd::prelude::*;

pub mod error;
pub mod laws;
pub mod reader;
pub mod source;
pub mod text;
pub mod versions;

pub use error::ParseError;
pub use versions::{common, v2, v3, V1, V2, V3};
