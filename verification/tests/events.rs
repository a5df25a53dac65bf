use asciicast_rs::common::{Resize};
use asciicast_rs::{v2, v3, ParseError};

fn message<T: std::fmt::Debug>(result: Result<T, ParseError>) -> String {
    match result {
        Err(ParseError::MalformedEvent(message)) => message,
        other => panic!("expected a malformed event, got {other:?}"),
    }
}

#[test]
fn v3_known_codes_are_typed() {
    let p = v3::EventPayload::from_raw("o".to_owned(), "Hello v3".to_owned()).unwrap();
    assert_eq!(p, v3::EventPayload::Output("Hello v3".to_owned()));
    assert_eq!(p.code(), v3::EventCode::Output);
    assert_eq!(p.as_output(), Some("Hello v3"));
    assert_eq!(p.as_input(), None);

    let p = v3::EventPayload::from_raw("i".to_owned(), "q".to_owned()).unwrap();
    assert_eq!(p.as_input(), Some("q"));
    assert_eq!(p.code(), v3::EventCode::Input);

    let p = v3::EventPayload::from_raw("m".to_owned(), "mark".to_owned()).unwrap();
    assert_eq!(p.as_marker(), Some("mark"));
    assert_eq!(p.as_output(), None);

    let p = v3::EventPayload::from_raw("r".to_owned(), "120x30".to_owned()).unwrap();
    assert_eq!(p.as_resize(), Some(Resize { cols: 120, rows: 30 }));
    assert_eq!(p.code(), v3::EventCode::Resize);

    let p = v3::EventPayload::from_raw("x".to_owned(), "0".to_owned()).unwrap();
    assert_eq!(p.code(), v3::EventCode::Exit);
    assert_eq!(p.as_exit().map(|status| status.code()), Some(0));
    assert_eq!(p.as_resize(), None);
}

#[test]
fn unknown_event_preserves_complete_code_and_data() {
    let p = v3::EventPayload::from_raw("subtitle".to_owned(), "hello".to_owned()).unwrap();
    assert_eq!(p.code(), v3::EventCode::Unknown);
    assert_eq!(
        p,
        v3::EventPayload::Unknown {
            code: "subtitle".to_owned(),
            data: "hello".to_owned(),
        }
    );
    // A code that merely starts with a known letter is not that code.
    let p = v3::EventPayload::from_raw("ox".to_owned(), "a".to_owned()).unwrap();
    assert_eq!(p.code(), v3::EventCode::Unknown);
    assert_eq!(p.as_exit(), None);
}

#[test]
fn v3_payload_errors() {
    assert_eq!(
        message(v3::EventPayload::from_raw(String::new(), "x".to_owned())),
        "missing event code"
    );
    assert_eq!(
        message(v3::EventPayload::from_raw("r".to_owned(), "80by24".to_owned())),
        "invalid resize payload: \"80by24\""
    );
    assert_eq!(
        message(v3::EventPayload::from_raw("x".to_owned(), "zero".to_owned())),
        "invalid exit status: \"zero\""
    );
}

fn json(text: &str) -> serde_json::Value {
    serde_json::from_str(text).unwrap()
}

#[test]
fn v2_known_codes_take_string_data() {
    let p = v2::EventPayload::from_raw("o".to_owned(), json("\"Hello World\"")).unwrap();
    assert_eq!(p, v2::EventPayload::Output("Hello World".to_owned()));
    assert_eq!(p.code(), v2::EventCode::Output);
    assert_eq!(p.as_output(), Some("Hello World"));

    let p = v2::EventPayload::from_raw("i".to_owned(), json("\"ls\\r\"")).unwrap();
    assert_eq!(p.as_input(), Some("ls\r"));

    let p = v2::EventPayload::from_raw("m".to_owned(), json("\"checkpoint\"")).unwrap();
    assert_eq!(p.as_marker(), Some("checkpoint"));
    assert_eq!(p.code(), v2::EventCode::Marker);

    let p = v2::EventPayload::from_raw("r".to_owned(), json("\"100x40\"")).unwrap();
    assert_eq!(p.as_resize(), Some(Resize { cols: 100, rows: 40 }));
    assert_eq!(p.as_output(), None);
}

#[test]
fn unknown_event_preserves_complete_code_and_json_data() {
    let data = json("{\"text\":\"hello\",\"position\":2}");
    let p = v2::EventPayload::from_raw("overlay".to_owned(), data.clone()).unwrap();
    assert_eq!(p.code(), v2::EventCode::Unknown);
    assert_eq!(p, v2::EventPayload::Unknown { code: "overlay".to_owned(), data });
}

fn json_error(text: &str) -> serde_json::Error {
    serde_json::from_str::<String>(text).unwrap_err()
}

#[test]
fn v2_payload_errors() {
    assert!(matches!(
        v2::EventPayload::from_raw("o".to_owned(), json("5")),
        Err(ParseError::Json(_))
    ));
    assert!(matches!(
        v2::EventPayload::from_raw("r".to_owned(), json("{\"cols\":80}")),
        Err(ParseError::Json(_))
    ));
    assert!(matches!(
        v2::EventPayload::from_raw(String::new(), json("\"a\"")),
        Err(ParseError::Json(_))
    ));
    assert_eq!(
        message(v2::EventPayload::from_raw("r".to_owned(), json("\"80\""))),
        "invalid resize payload: \"80\""
    );
}

#[test]
fn v2_codes_are_named() {
    assert_eq!(v2::EventCode::named("o"), v2::EventCode::Output);
    assert_eq!(v2::EventCode::named("i"), v2::EventCode::Input);
    assert_eq!(v2::EventCode::named("m"), v2::EventCode::Marker);
    assert_eq!(v2::EventCode::named("r"), v2::EventCode::Resize);
    assert_eq!(v2::EventCode::named("x"), v2::EventCode::Unknown);
    assert_eq!(v2::EventCode::named("oo"), v2::EventCode::Unknown);
    assert_eq!(v2::EventCode::named(""), v2::EventCode::Unknown);
}

#[test]
fn v2_from_text_uses_the_given_text() {
    let p = v2::EventPayload::from_text(v2::EventCode::Output, Ok("hi".to_owned())).unwrap();
    assert_eq!(p.as_output(), Some("hi"));
    let p = v2::EventPayload::from_text(v2::EventCode::Resize, Ok("3x4".to_owned())).unwrap();
    assert_eq!(p, v2::EventPayload::Resize(Resize { cols: 3, rows: 4 }));
    assert_eq!(
        message(v2::EventPayload::from_text(v2::EventCode::Resize, Ok("3x".to_owned()))),
        "invalid resize rows: \"3x\""
    );
    assert!(matches!(
        v2::EventPayload::from_text(v2::EventCode::Marker, Err(json_error("5"))),
        Err(ParseError::Json(_))
    ));
}
