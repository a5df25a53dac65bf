//! asciicast [v2](https://docs.asciinema.org/manual/asciicast/v2/).
//!
//! A v2 recording is newline-delimited JSON: a header object on the first line
//! followed by one `[time, code, data]` event array per line.
use vstd::prelude::*;

use crate::error::ParseError;
use crate::versions::common::{resize_outcome, Resize};
use crate::versions::v3::is_single_char;

verus! {

#[verifier::external_type_specification]
#[verifier::external_body]
pub struct ExJsonValue(serde_json::Value);

/// `serde_json::Value` derives `Clone`; payloads that hold a value are cloned
/// through it. Nothing is claimed of the clone.
pub assume_specification[ <serde_json::Value as Clone>::clone ](v: &serde_json::Value) -> serde_json::Value;

/// The text held by the JSON value `v`, where `v` is a JSON string.
pub uninterp spec fn json_text(v: serde_json::Value) -> Option<Seq<char>>;

/// Calls `serde_json::from_value::<String>`, which reads a JSON value as a
/// string. Claimed: it succeeds exactly where `v` is a JSON string, and then
/// returns that string's text, `json_text(v)`; nothing is claimed of the error.
#[verifier::external_body]
fn string_from_value(v: serde_json::Value) -> (r: Result<String, serde_json::Error>)
    ensures
        match r {
            Ok(t) => json_text(v) == Some(t@),
            Err(_) => json_text(v) == None::<Seq<char>>,
        },
{
    serde_json::from_value::<String>(v)
}

/// Calls `<serde_json::Error as serde::de::Error>::custom`, which makes a
/// JSON error carrying `message`. Nothing is claimed of the error.
#[verifier::external_body]
fn json_error(message: &str) -> serde_json::Error {
    <serde_json::Error as serde::de::Error>::custom(message)
}

/// The event type identifier for a v2 event.
#[derive(Debug, Clone, Copy, PartialEq, Eq, Structural)]
#[non_exhaustive]
pub enum EventCode {
    /// Output written to the terminal (`o`).
    Output,
    /// User keyboard input (`i`).
    Input,
    /// A marker / navigation point (`m`).
    Marker,
    /// A terminal resize (`r`).
    Resize,
    /// An event code this crate does not interpret.
    Unknown,
}

/// A typed v2 event payload.
#[derive(Debug, Clone, PartialEq)]
#[non_exhaustive]
pub enum EventPayload {
    /// Output written to the terminal.
    Output(String),
    /// User keyboard input.
    Input(String),
    /// A marker with an (possibly empty) label.
    Marker(String),
    /// A terminal resize to new dimensions.
    Resize(Resize),
    /// An event whose code is not known to this crate.
    Unknown {
        /// The complete event code.
        code: String,
        /// The event data, as the JSON value it was written as.
        data: serde_json::Value,
    },
}

/// The event code that the wire code `code` names.
pub open spec fn code_named(code: Seq<char>) -> EventCode {
    if code == seq!['o'] {
        EventCode::Output
    } else if code == seq!['i'] {
        EventCode::Input
    } else if code == seq!['m'] {
        EventCode::Marker
    } else if code == seq!['r'] {
        EventCode::Resize
    } else {
        EventCode::Unknown
    }
}

/// What typing the payload of an event whose code is the known `kind` gives,
/// from the result `text` of reading its data as a JSON string: `o`, `i` and
/// `m` keep the text, `r` parses it as a resize, and data that is not a JSON
/// string is a JSON error.
pub open spec fn text_payload_outcome(
    kind: EventCode,
    text: Result<Seq<char>, serde_json::Error>,
    r: Result<EventPayload, ParseError>,
) -> bool {
    match text {
        Err(e) => r == Err::<EventPayload, ParseError>(ParseError::Json(e)),
        Ok(t) => match kind {
            EventCode::Output => r matches Ok(EventPayload::Output(s)) && s@ == t,
            EventCode::Input => r matches Ok(EventPayload::Input(s)) && s@ == t,
            EventCode::Marker => r matches Ok(EventPayload::Marker(s)) && s@ == t,
            _ => match r {
                Ok(p) => p matches EventPayload::Resize(z) && resize_outcome(t, Ok(z)),
                Err(e) => resize_outcome(t, Err(e)),
            },
        },
    }
}

/// What typing an event line gives from its wire code `code`, its data `data`
/// and the text `text` of that data where the data is a JSON string.
pub open spec fn payload_outcome(
    code: Seq<char>,
    text: Option<Seq<char>>,
    data: serde_json::Value,
    r: Result<EventPayload, ParseError>,
) -> bool {
    if code.len() == 0 {
        r matches Err(ParseError::Json(_))
    } else if code_named(code) == EventCode::Unknown {
        r matches Ok(EventPayload::Unknown { code: c, data: d }) && c@ == code && d == data
    } else {
        match text {
            None => r matches Err(ParseError::Json(_)),
            Some(t) => text_payload_outcome(code_named(code), Ok(t), r),
        }
    }
}

impl EventCode {
    /// The event code that the wire code `code` names (`Unknown` for any code
    /// other than `o`, `i`, `m` and `r`).
    pub fn named(code: &str) -> (k: EventCode)
        ensures
            k == code_named(code@),
    {
        if is_single_char(code, 'o') {
            EventCode::Output
        } else if is_single_char(code, 'i') {
            EventCode::Input
        } else if is_single_char(code, 'm') {
            EventCode::Marker
        } else if is_single_char(code, 'r') {
            EventCode::Resize
        } else {
            EventCode::Unknown
        }
    }
}

impl EventPayload {
    /// The event code this payload carries.
    pub open spec fn kind(&self) -> EventCode {
        match self {
            EventPayload::Output(_) => EventCode::Output,
            EventPayload::Input(_) => EventCode::Input,
            EventPayload::Marker(_) => EventCode::Marker,
            EventPayload::Resize(_) => EventCode::Resize,
            EventPayload::Unknown { .. } => EventCode::Unknown,
        }
    }

    /// Type the payload of an event whose code is the known `kind` from the
    /// result `text` of reading its data as a JSON string.
    pub fn from_text(kind: EventCode, text: Result<String, serde_json::Error>) -> (r: Result<
        EventPayload,
        ParseError,
    >)
        requires
            kind != EventCode::Unknown,
        ensures
            text_payload_outcome(
                kind,
                match text {
                    Ok(t) => Ok(t@),
                    Err(e) => Err(e),
                },
                r,
            ),
    {
        let t = match text {
            Ok(t) => t,
            Err(e) => {
                return Err(ParseError::Json(e));
            },
        };
        match kind {
            EventCode::Output => Ok(EventPayload::Output(t)),
            EventCode::Input => Ok(EventPayload::Input(t)),
            EventCode::Marker => Ok(EventPayload::Marker(t)),
            _ => match Resize::parse(t.as_str()) {
                Ok(z) => Ok(EventPayload::Resize(z)),
                Err(e) => Err(e),
            },
        }
    }

    /// Type an event from its wire code and data: an empty code names no event
    /// and is a JSON error, an unknown code is kept with its data as an unknown
    /// event, and the data of a known code is read as a JSON string (see
    /// [`EventPayload::from_text`]).
    pub fn from_raw(code: String, data: serde_json::Value) -> (r: Result<EventPayload, ParseError>)
        ensures
            payload_outcome(code@, json_text(data), data, r),
    {
        if code.unicode_len() == 0 {
            return Err(
                ParseError::Json(json_error("unknown variant ``, expected one of `o`, `i`, `m`, `r`")),
            );
        }
        let kind = EventCode::named(code.as_str());
        if kind == EventCode::Unknown {
            return Ok(EventPayload::Unknown { code, data });
        }
        Self::from_text(kind, string_from_value(data))
    }

    /// The event type identifier.
    pub fn code(&self) -> (r: EventCode)
        ensures
            r == self.kind(),
    {
        match self {
            EventPayload::Output(_) => EventCode::Output,
            EventPayload::Input(_) => EventCode::Input,
            EventPayload::Marker(_) => EventCode::Marker,
            EventPayload::Resize(_) => EventCode::Resize,
            EventPayload::Unknown { .. } => EventCode::Unknown,
        }
    }

    /// The output text, if this is an output event.
    pub fn as_output(&self) -> (r: Option<&str>)
        ensures
            r is Some <==> self.kind() == EventCode::Output,
            r matches Some(t) ==> self matches EventPayload::Output(s) && t@ == s@,
    {
        match self {
            EventPayload::Output(s) => Some(s.as_str()),
            _ => None,
        }
    }

    /// The input text, if this is an input event.
    pub fn as_input(&self) -> (r: Option<&str>)
        ensures
            r is Some <==> self.kind() == EventCode::Input,
            r matches Some(t) ==> self matches EventPayload::Input(s) && t@ == s@,
    {
        match self {
            EventPayload::Input(s) => Some(s.as_str()),
            _ => None,
        }
    }

    /// The marker label, if this is a marker event.
    pub fn as_marker(&self) -> (r: Option<&str>)
        ensures
            r is Some <==> self.kind() == EventCode::Marker,
            r matches Some(t) ==> self matches EventPayload::Marker(s) && t@ == s@,
    {
        match self {
            EventPayload::Marker(s) => Some(s.as_str()),
            _ => None,
        }
    }

    /// The new dimensions, if this is a resize event.
    pub fn as_resize(&self) -> (r: Option<Resize>)
        ensures
            r is Some <==> self.kind() == EventCode::Resize,
            r matches Some(z) ==> self matches EventPayload::Resize(w) && w == z,
    {
        match self {
            EventPayload::Resize(z) => Some(*z),
            _ => None,
        }
    }
}

} // verus!
