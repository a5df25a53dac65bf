use asciicast_rs::reader::{
    check_version, classify_line, end_of_input, find_header_line, next_action, next_phase, parse_ndjson,
    LineAction, LineKind, ReaderPhase,
};
use asciicast_rs::source::starts_with_zstd_magic;
use asciicast_rs::versions::{detect_version, resolve_version, DetectedVersion};
use asciicast_rs::{v2, v3, ParseError, V1, V2, V3};

#[test]
fn classify_blank_comment_and_content() {
    assert_eq!(classify_line("", true), LineKind::Blank);
    assert_eq!(classify_line(" \t\r", false), LineKind::Blank);
    assert_eq!(classify_line("\u{a0}\u{3000}", true), LineKind::Blank);
    assert_eq!(classify_line("# a v3 comment", true), LineKind::Comment);
    assert_eq!(classify_line("   # indented", true), LineKind::Comment);
    assert_eq!(classify_line("# not valid in v2", false), LineKind::Content);
    assert_eq!(classify_line("[0.0,\"o\",\"hi\"]", true), LineKind::Content);
    assert_eq!(classify_line("x#", true), LineKind::Content);
}

#[test]
fn version_checks() {
    assert!(check_version(2, 2).is_ok());
    assert!(matches!(
        check_version(2, 3),
        Err(ParseError::VersionMismatch { expected: 2, found: 3 })
    ));
    assert_eq!(V1::NUMBER, 1);
    assert_eq!(V2::NUMBER, 2);
    assert_eq!(V3::NUMBER, 3);
    assert!(!V2::SKIP_COMMENTS && V3::SKIP_COMMENTS);
    assert!(V1::RELATIVE_TIMING && !V2::RELATIVE_TIMING && V3::RELATIVE_TIMING);
}

#[test]
fn unknown_version_is_rejected() {
    assert_eq!(detect_version(1).unwrap(), DetectedVersion::V1);
    assert_eq!(detect_version(2).unwrap(), DetectedVersion::V2);
    assert_eq!(detect_version(3).unwrap(), DetectedVersion::V3);
    assert!(matches!(detect_version(9), Err(ParseError::UnknownVersion(9))));
    assert!(matches!(detect_version(0), Err(ParseError::UnknownVersion(0))));
}

#[test]
fn resolve_prefers_the_whole_document() {
    assert_eq!(resolve_version(Some(1), None).unwrap(), DetectedVersion::V1);
    assert_eq!(resolve_version(Some(2), Some(Ok(3))).unwrap(), DetectedVersion::V2);
    assert_eq!(resolve_version(None, Some(Ok(3))).unwrap(), DetectedVersion::V3);
    assert!(matches!(resolve_version(None, None), Err(ParseError::MissingHeader)));
    assert!(matches!(
        resolve_version(None, Some(Ok(9))),
        Err(ParseError::UnknownVersion(9))
    ));
    let json_error = serde_json::from_str::<u8>("{").unwrap_err();
    assert!(matches!(
        resolve_version(None, Some(Err(ParseError::Json(json_error)))),
        Err(ParseError::Json(_))
    ));
}

#[test]
fn zstd_magic_detection() {
    assert!(starts_with_zstd_magic(&[0x28, 0xb5, 0x2f, 0xfd]));
    assert!(starts_with_zstd_magic(&[0x28, 0xb5, 0x2f, 0xfd, 0x00, 0x01]));
    assert!(!starts_with_zstd_magic(&[0x28, 0xb5, 0x2f]));
    assert!(!starts_with_zstd_magic(&[]));
    assert!(!starts_with_zstd_magic(b"{\"version\":2}"));
}

fn lines(text: &[&str]) -> Vec<String> {
    text.iter().map(|line| (*line).to_owned()).collect()
}

fn split(text: &str) -> Vec<String> {
    text.lines().map(str::to_owned).collect()
}

#[derive(Debug, PartialEq)]
struct Header {
    version: u8,
    width: u64,
}

fn parse_header(line: &String) -> Result<Header, ParseError> {
    let value: serde_json::Value = serde_json::from_str(line).map_err(ParseError::Json)?;
    let width = value["width"]
        .as_u64()
        .or_else(|| value["term"]["cols"].as_u64())
        .unwrap_or(0);
    Ok(Header { version: value["version"].as_u64().unwrap_or(0) as u8, width })
}

fn parse_v2_event(line: &String) -> Result<v2::EventPayload, ParseError> {
    let (_time, code, data): (f64, String, serde_json::Value) =
        serde_json::from_str(line).map_err(ParseError::Json)?;
    v2::EventPayload::from_raw(code, data)
}

fn parse_v3_event(line: &String) -> Result<v3::EventPayload, ParseError> {
    let (_interval, code, data): (f64, String, String) =
        serde_json::from_str(line).map_err(ParseError::Json)?;
    v3::EventPayload::from_raw(code, data)
}

fn run_v2(text: &str) -> Result<(Header, Vec<v2::EventPayload>), ParseError> {
    parse_ndjson(&split(text), None, V2::NUMBER, V2::SKIP_COMMENTS, parse_header, |h: &Header| h.version, parse_v2_event)
}

fn run_v3(text: &str) -> Result<(Header, Vec<v3::EventPayload>), ParseError> {
    parse_ndjson(&split(text), None, V3::NUMBER, V3::SKIP_COMMENTS, parse_header, |h: &Header| h.version, parse_v3_event)
}

#[test]
fn header_only_recording_has_no_events() {
    let (header, events) = run_v2("{\"version\":2,\"width\":80,\"height\":24}\n").unwrap();
    assert_eq!(header, Header { version: 2, width: 80 });
    assert!(events.is_empty());
}

#[test]
fn trailing_blank_lines_are_skipped() {
    let (_, events) =
        run_v2("{\"version\":2,\"width\":80,\"height\":24}\n[0.0,\"o\",\"hi\"]\n\n\n").unwrap();
    assert_eq!(events.len(), 1);
}

#[test]
fn crlf_line_endings_are_handled() {
    let (header, events) =
        run_v2("{\"version\":2,\"width\":80,\"height\":24}\r\n[0.0,\"o\",\"hi\"]\r\n").unwrap();
    assert_eq!(header.width, 80);
    assert_eq!(events.len(), 1);
    assert_eq!(events.first().and_then(|event| event.as_output()), Some("hi"));
}

#[test]
fn unknown_header_fields_are_ignored() {
    let (header, _) =
        run_v3("{\"version\":3,\"term\":{\"cols\":80,\"rows\":24},\"future_field\":42}\n").unwrap();
    assert_eq!(header.width, 80);
}

#[test]
fn leading_blank_lines_precede_the_header() {
    assert_eq!(find_header_line(&lines(&["", " ", "{\"version\":2}"])), 2);
    assert_eq!(find_header_line(&lines(&["", " "])), 2);
    let (_, events) = run_v2("\n  \n{\"version\":2,\"width\":80,\"height\":24}\n[0,\"o\",\"a\"]\n").unwrap();
    assert_eq!(events, vec![v2::EventPayload::Output("a".to_owned())]);
}

#[test]
fn empty_input_is_missing_header() {
    assert!(matches!(run_v2(""), Err(ParseError::MissingHeader)));
    assert!(matches!(run_v3("\n\t\n"), Err(ParseError::MissingHeader)));
}

#[test]
fn comments_are_only_a_v3_feature() {
    let v3 = "{\"version\":3,\"term\":{\"cols\":80,\"rows\":24}}\n# a v3 comment\n";
    assert!(run_v3(v3).is_ok());

    let v2 = "{\"version\":2,\"width\":80,\"height\":24}\n# not valid in v2\n";
    assert!(matches!(run_v2(v2), Err(ParseError::Json(_))));
}

#[test]
fn v3_comment_lines_are_skipped() {
    let text = "{\"version\":3,\"term\":{\"cols\":80,\"rows\":24}}\n# note\n[0.1,\"o\",\"a\"]\n  # indented\n[0.2,\"x\",\"0\"]\n";
    let (header, events) = run_v3(text).unwrap();
    assert_eq!(header.width, 80);
    assert_eq!(events.len(), 2);
    assert_eq!(events[1].as_exit().map(|status| status.code()), Some(0));
}

#[test]
fn version_mismatch_is_reported() {
    assert!(matches!(
        run_v2("{\"version\":3,\"term\":{\"cols\":80,\"rows\":24}}\n[0,\"o\",\"b\"]\n"),
        Err(ParseError::VersionMismatch { expected: 2, found: 3 })
    ));
    assert!(matches!(
        run_v3("{\"version\":2,\"width\":80,\"height\":24}\n"),
        Err(ParseError::VersionMismatch { expected: 3, found: 2 })
    ));
}

#[test]
fn malformed_event_line_errors() {
    let data = "{\"version\":3,\"term\":{\"cols\":80,\"rows\":24}}\n[0.0,\"o\"]\n";
    assert!(run_v3(data).is_err());
    assert!(matches!(run_v2("not json"), Err(ParseError::Json(_))));
}

#[test]
fn first_event_error_stops_parsing() {
    let data = "{\"version\":2,\"width\":80,\"height\":24}\n[0,\"o\",\"a\"]\n[0,\"r\",\"80\"]\n[bad\n";
    match run_v2(data) {
        Err(ParseError::MalformedEvent(message)) => {
            assert_eq!(message, "invalid resize payload: \"80\"");
        }
        other => panic!("unexpected {other:?}"),
    }
}

#[test]
fn read_error_ends_the_input() {
    let read_error = || Some(ParseError::Io(std::io::Error::other("disk gone")));
    let header = "{\"version\":2,\"width\":80,\"height\":24}";
    let result = parse_ndjson(&lines(&[header, "[0,\"o\",\"a\"]"]), read_error(), 2, false, parse_header, |h: &Header| h.version, parse_v2_event);
    assert!(matches!(result, Err(ParseError::Io(_))));
    let result = parse_ndjson(&lines(&[""]), read_error(), 2, false, parse_header, |h: &Header| h.version, parse_v2_event);
    assert!(matches!(result, Err(ParseError::Io(_))));
    // A header error comes before the error that ended reading.
    let result = parse_ndjson(&lines(&["{"]), read_error(), 2, false, parse_header, |h: &Header| h.version, parse_v2_event);
    assert!(matches!(result, Err(ParseError::Json(_))));
}

#[test]
fn reader_actions_follow_the_phase() {
    assert_eq!(next_action(ReaderPhase::AwaitingHeader, "  ", true), LineAction::Skip);
    assert_eq!(next_action(ReaderPhase::AwaitingHeader, "{\"version\":3}", true), LineAction::Header);
    // Before the header a `#` line is not a comment: it is taken as the header.
    assert_eq!(next_action(ReaderPhase::AwaitingHeader, "# note", true), LineAction::Header);
    assert_eq!(next_action(ReaderPhase::Events, "# note", true), LineAction::Skip);
    assert_eq!(next_action(ReaderPhase::Events, "# note", false), LineAction::Event);
    assert_eq!(next_action(ReaderPhase::Events, "\t", false), LineAction::Skip);
    assert_eq!(next_action(ReaderPhase::Events, "[0,\"o\",\"a\"]", true), LineAction::Event);
}


#[test]
fn line_by_line_reading_matches_eager_parse() {
    let text = "\n{\"version\":3,\"term\":{\"cols\":80,\"rows\":24}}\n# note\n[0.1,\"o\",\"a\"]\n\n[0.2,\"subtitle\",\"b\"]\n  # indented\n[0.2,\"x\",\"0\"]\n";
    let streamed = stream_v3(text).unwrap();
    let eager = run_v3(text).unwrap();
    assert_eq!(streamed, eager);
    assert_eq!(streamed.1.len(), 3);
    assert!(matches!(stream_v3("\n \n"), Err(ParseError::MissingHeader)));
    assert!(matches!(run_v3("\n \n"), Err(ParseError::MissingHeader)));
}

#[test]
fn an_event_is_decided_from_its_own_line() {
    // The second event line is malformed; the first event is decided before
    // that line is ever looked at.
    let first = "[0.0,\"o\",\"ok\"]";
    assert_eq!(next_action(ReaderPhase::Events, first, V2::SKIP_COMMENTS), LineAction::Event);
    assert_eq!(parse_v2_event(&first.to_owned()).unwrap().as_output(), Some("ok"));
    let data = "{\"version\":2,\"width\":80,\"height\":24}\n[0.0,\"o\",\"ok\"]\n[bad\n";
    assert!(matches!(run_v2(data), Err(ParseError::Json(_))));
}

#[test]
fn text_is_never_taken_for_zstd() {
    for text in ["{\"version\":2}", "(\u{b5}/\u{fd}", "(", "", "\u{feff}{}"] {
        assert!(!starts_with_zstd_magic(text.as_bytes()), "{text:?}");
    }
}

#[test]
fn short_inputs_are_not_zstd() {
    // Inputs shorter than the 4-byte magic never match.
    for prefix_len in 0..4_usize {
        assert!(!starts_with_zstd_magic(&vec![0x28_u8; prefix_len]));
    }
    assert!(starts_with_zstd_magic(&[0x28, 0xb5, 0x2f, 0xfd]));
}

#[test]
fn empty_input_has_no_version() {
    // Empty input has no document and no header line to read a version from.
    assert!(resolve_version(None, None).is_err());
}


#[test]
fn line_by_line_reading_stops_at_event_errors() {
    let data = "{\"version\":2,\"width\":80,\"height\":24}\n[0.0,\"o\"]\n";
    assert!(stream_v2(data).is_err());
    assert!(run_v2(data).is_err());
}

#[test]
fn unknown_v2_and_v3_events_are_kept_line_by_line() {
    let v2_data = "{\"version\":2,\"width\":80,\"height\":24}\n[1.0,\"overlay\",{\"text\":\"hello\"}]\n";
    let (_, v2_events) = stream_v2(v2_data).unwrap();
    assert_eq!(
        v2_events.first(),
        Some(&v2::EventPayload::Unknown {
            code: "overlay".to_owned(),
            data: serde_json::from_str("{\"text\":\"hello\"}").unwrap(),
        })
    );
    assert_eq!(run_v2(v2_data).unwrap().1, v2_events);

    let v3_data = "{\"version\":3,\"term\":{\"cols\":80,\"rows\":24}}\n[0.5,\"subtitle\",\"hello\"]\n";
    let (_, v3_events) = stream_v3(v3_data).unwrap();
    assert_eq!(
        v3_events.first(),
        Some(&v3::EventPayload::Unknown {
            code: "subtitle".to_owned(),
            data: "hello".to_owned(),
        })
    );
    assert_eq!(run_v3(v3_data).unwrap().1, v3_events);
}

/// Take the lines one at a time, deciding each with `next_action` and
/// `next_phase` and the end with `end_of_input`: the header line, then every
/// event in order, stopping at the first error.
fn line_by_line<E>(
    text: &str,
    expected: u8,
    skip_comments: bool,
    parse_event: fn(&String) -> Result<E, ParseError>,
) -> Result<(Header, Vec<E>), ParseError> {
    let mut phase = ReaderPhase::AwaitingHeader;
    let mut header = None;
    let mut events = Vec::new();
    for line in split(text) {
        let action = next_action(phase, &line, skip_comments);
        phase = next_phase(phase, action);
        match action {
            LineAction::Skip => {}
            LineAction::Header => {
                let h = parse_header(&line)?;
                check_version(expected, h.version)?;
                header = Some(h);
            }
            LineAction::Event => events.push(parse_event(&line)?),
        }
    }
    end_of_input(phase)?;
    Ok((header.expect("a reader past the header phase has read one"), events))
}

fn stream_v2(text: &str) -> Result<(Header, Vec<v2::EventPayload>), ParseError> {
    line_by_line(text, V2::NUMBER, V2::SKIP_COMMENTS, parse_v2_event)
}

fn stream_v3(text: &str) -> Result<(Header, Vec<v3::EventPayload>), ParseError> {
    line_by_line(text, V3::NUMBER, V3::SKIP_COMMENTS, parse_v3_event)
}

#[test]
fn phases_and_end_of_input() {
    assert_eq!(next_phase(ReaderPhase::AwaitingHeader, LineAction::Skip), ReaderPhase::AwaitingHeader);
    assert_eq!(next_phase(ReaderPhase::AwaitingHeader, LineAction::Header), ReaderPhase::Events);
    assert_eq!(next_phase(ReaderPhase::Events, LineAction::Event), ReaderPhase::Events);
    assert_eq!(next_phase(ReaderPhase::Events, LineAction::Skip), ReaderPhase::Events);
    assert!(matches!(end_of_input(ReaderPhase::AwaitingHeader), Err(ParseError::MissingHeader)));
    assert!(end_of_input(ReaderPhase::Events).is_ok());
}

#[test]
fn whitespace_is_the_unicode_white_space_set() {
    for n in 0..=0x10ffff_u32 {
        if let Some(c) = char::from_u32(n) {
            assert_eq!(asciicast_rs::text::is_whitespace(c), c.is_whitespace(), "{n:#x}");
        }
    }
}
