//! asciicast [v3](https://docs.asciinema.org/manual/asciicast/v3/).
//!
//! A v3 recording is newline-delimited JSON: a header object on the first line
//! followed by one `[interval, code, data]` event array per line. Comment lines
//! beginning with `#` are ignored.
use vstd::prelude::*;

use crate::error::ParseError;
use crate::versions::common::{exit_status_outcome, resize_outcome, ExitStatus, Resize, Theme};

verus! {

/// Terminal information carried by a v3 header.
#[derive(Debug, Clone, PartialEq, Eq)]
pub struct Term {
    /// Terminal width in columns.
    pub cols: u16,
    /// Terminal height in rows.
    pub rows: u16,
    /// Terminal type, e.g. `xterm-256color` (the header's `type` field).
    pub term_type: Option<String>,
    /// Terminal version, as reported by an `XTVERSION` query.
    pub version: Option<String>,
    /// Terminal colour scheme.
    pub theme: Option<Theme>,
}

/// The event type identifier for a v3 event.
#[derive(Debug, Clone, Copy, PartialEq, Eq, Structural)]
#[non_exhaustive]
pub enum EventCode {
    /// Output written to the terminal (`o`).
    Output,
    /// User keyboard input (`i`).
    Input,
    /// A marker / navigation point (`m`).
    Marker,
    /// A terminal resize (`r`).
    Resize,
    /// Session exit (`x`).
    Exit,
    /// An event code this crate does not interpret.
    Unknown,
}

/// A typed v3 event payload.
#[derive(Debug, Clone, PartialEq, Eq)]
#[non_exhaustive]
pub enum EventPayload {
    /// Output written to the terminal.
    Output(String),
    /// User keyboard input.
    Input(String),
    /// A marker with a (possibly empty) label.
    Marker(String),
    /// A terminal resize to new dimensions.
    Resize(Resize),
    /// Session exit with a status.
    Exit(ExitStatus),
    /// An event whose code is not known to this crate.
    Unknown {
        /// The complete event code.
        code: String,
        /// The event data.
        data: String,
    },
}

/// The event code that the wire code `code` names.
pub open spec fn code_named(code: Seq<char>) -> EventCode {
    if code == seq!['o'] {
        EventCode::Output
    } else if code == seq!['i'] {
        EventCode::Input
    } else if code == seq!['m'] {
        EventCode::Marker
    } else if code == seq!['r'] {
        EventCode::Resize
    } else if code == seq!['x'] {
        EventCode::Exit
    } else {
        EventCode::Unknown
    }
}

/// What typing the wire code `code` and data `data` of an event line gives.
pub open spec fn payload_outcome(code: Seq<char>, data: Seq<char>, r: Result<EventPayload, ParseError>) -> bool {
    if code.len() == 0 {
        r matches Err(ParseError::MalformedEvent(m)) && m@ == "missing event code"@
    } else {
        match code_named(code) {
            EventCode::Output => r matches Ok(EventPayload::Output(t)) && t@ == data,
            EventCode::Input => r matches Ok(EventPayload::Input(t)) && t@ == data,
            EventCode::Marker => r matches Ok(EventPayload::Marker(t)) && t@ == data,
            EventCode::Resize => match r {
                Ok(p) => p matches EventPayload::Resize(z) && resize_outcome(data, Ok(z)),
                Err(e) => resize_outcome(data, Err(e)),
            },
            EventCode::Exit => match r {
                Ok(p) => p matches EventPayload::Exit(z) && exit_status_outcome(data, Ok(z)),
                Err(e) => exit_status_outcome(data, Err(e)),
            },
            EventCode::Unknown => r matches Ok(EventPayload::Unknown { code: c, data: d }) && c@
                == code && d@ == data,
        }
    }
}

/// Whether `s` is the one-character string `c`.
pub fn is_single_char(s: &str, c: char) -> (r: bool)
    ensures
        r == (s@ == seq![c]),
{
    if s.unicode_len() == 1 {
        let first = s.get_char(0);
        if first == c {
            assert(s@ =~= seq![c]);
            true
        } else {
            false
        }
    } else {
        false
    }
}

impl EventPayload {
    /// The event code this payload carries.
    pub open spec fn kind(&self) -> EventCode {
        match self {
            EventPayload::Output(_) => EventCode::Output,
            EventPayload::Input(_) => EventCode::Input,
            EventPayload::Marker(_) => EventCode::Marker,
            EventPayload::Resize(_) => EventCode::Resize,
            EventPayload::Exit(_) => EventCode::Exit,
            EventPayload::Unknown { .. } => EventCode::Unknown,
        }
    }

    /// Type an event from its wire code and data: `o`, `i` and `m` keep the
    /// data as text, `r` and `x` parse it, an empty code is rejected, and any
    /// other code is kept with its data as an unknown event.
    pub fn from_raw(code: String, data: String) -> (r: Result<EventPayload, ParseError>)
        ensures
            payload_outcome(code@, data@, r),
    {
        if code.unicode_len() == 0 {
            return Err(ParseError::MalformedEvent(String::from_str("missing event code")));
        }
        if is_single_char(code.as_str(), 'o') {
            Ok(EventPayload::Output(data))
        } else if is_single_char(code.as_str(), 'i') {
            Ok(EventPayload::Input(data))
        } else if is_single_char(code.as_str(), 'm') {
            Ok(EventPayload::Marker(data))
        } else if is_single_char(code.as_str(), 'r') {
            match Resize::parse(data.as_str()) {
                Ok(z) => Ok(EventPayload::Resize(z)),
                Err(e) => Err(e),
            }
        } else if is_single_char(code.as_str(), 'x') {
            match ExitStatus::parse(data.as_str()) {
                Ok(z) => Ok(EventPayload::Exit(z)),
                Err(e) => Err(e),
            }
        } else {
            Ok(EventPayload::Unknown { code, data })
        }
    }

    /// The event type identifier.
    ///
    /// Unknown events return [`EventCode::Unknown`]; their complete code is stored in
    /// [`EventPayload::Unknown`].
    pub fn code(&self) -> (r: EventCode)
        ensures
            r == self.kind(),
    {
        match self {
            EventPayload::Output(_) => EventCode::Output,
            EventPayload::Input(_) => EventCode::Input,
            EventPayload::Marker(_) => EventCode::Marker,
            EventPayload::Resize(_) => EventCode::Resize,
            EventPayload::Exit(_) => EventCode::Exit,
            EventPayload::Unknown { .. } => EventCode::Unknown,
        }
    }

    /// The output text, if this is an output event.
    pub fn as_output(&self) -> (r: Option<&str>)
        ensures
            r is Some <==> self.kind() == EventCode::Output,
            r matches Some(t) ==> self matches EventPayload::Output(s) && t@ == s@,
    {
        match self {
            EventPayload::Output(s) => Some(s.as_str()),
            _ => None,
        }
    }

    /// The input text, if this is an input event.
    pub fn as_input(&self) -> (r: Option<&str>)
        ensures
            r is Some <==> self.kind() == EventCode::Input,
            r matches Some(t) ==> self matches EventPayload::Input(s) && t@ == s@,
    {
        match self {
            EventPayload::Input(s) => Some(s.as_str()),
            _ => None,
        }
    }

    /// The marker label, if this is a marker event.
    pub fn as_marker(&self) -> (r: Option<&str>)
        ensures
            r is Some <==> self.kind() == EventCode::Marker,
            r matches Some(t) ==> self matches EventPayload::Marker(s) && t@ == s@,
    {
        match self {
            EventPayload::Marker(s) => Some(s.as_str()),
            _ => None,
        }
    }

    /// The new dimensions, if this is a resize event.
    pub fn as_resize(&self) -> (r: Option<Resize>)
        ensures
            r is Some <==> self.kind() == EventCode::Resize,
            r matches Some(z) ==> *self == EventPayload::Resize(z),
    {
        match self {
            EventPayload::Resize(z) => Some(*z),
            _ => None,
        }
    }

    /// The exit status, if this is an exit event.
    pub fn as_exit(&self) -> (r: Option<ExitStatus>)
        ensures
            r is Some <==> self.kind() == EventCode::Exit,
            r matches Some(z) ==> *self == EventPayload::Exit(z),
    {
        match self {
            EventPayload::Exit(z) => Some(*z),
            _ => None,
        }
    }
}

} // verus!
