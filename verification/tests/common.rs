use asciicast_rs::common::{
    drop_null_values, parse_palette, ColorError, ExitStatus, PaletteError, Resize, Rgb, Theme,
};
use asciicast_rs::ParseError;

#[test]
fn rgb_parse_returns_typed_errors() {
    assert_eq!(
        Rgb::parse("ffffff"),
        Err(ColorError::MissingHashPrefix {
            input: "ffffff".to_owned()
        })
    );
    assert_eq!(
        Rgb::parse("#fff"),
        Err(ColorError::WrongLength {
            input: "#fff".to_owned(),
            found: 3
        })
    );
    assert_eq!(
        Rgb::parse("#zzzzzz"),
        Err(ColorError::NonHexDigit {
            input: "#zzzzzz".to_owned()
        })
    );
    assert_eq!(Rgb::parse("#1a2b3c"), Ok(Rgb::new(0x1a, 0x2b, 0x3c)));
}

#[test]
fn rgb_channels_and_case() {
    let c = Rgb::parse("#D0d0A1").unwrap();
    assert_eq!((c.r(), c.g(), c.b()), (0xd0, 0xd0, 0xa1));
    let c = Rgb::new(1, 2, 3);
    assert_eq!((c.r(), c.g(), c.b()), (1, 2, 3));
}

#[test]
fn rgb_parse_edge_cases() {
    assert_eq!(
        Rgb::parse(""),
        Err(ColorError::MissingHashPrefix { input: String::new() })
    );
    assert_eq!(
        Rgb::parse("#"),
        Err(ColorError::WrongLength {
            input: "#".to_owned(),
            found: 0
        })
    );
    // The digit count is a byte count: three two-byte characters make six bytes.
    assert_eq!(
        Rgb::parse("#\u{e9}\u{e9}\u{e9}"),
        Err(ColorError::NonHexDigit {
            input: "#\u{e9}\u{e9}\u{e9}".to_owned()
        })
    );
    assert_eq!(
        Rgb::parse("#\u{e9}\u{e9}"),
        Err(ColorError::WrongLength {
            input: "#\u{e9}\u{e9}".to_owned(),
            found: 4
        })
    );
    assert_eq!(
        Rgb::parse("#0000000"),
        Err(ColorError::WrongLength {
            input: "#0000000".to_owned(),
            found: 7
        })
    );
    assert_eq!(Rgb::parse("#ffffff"), Ok(Rgb::new(255, 255, 255)));
    assert_eq!(Rgb::parse("#000000"), Ok(Rgb::new(0, 0, 0)));
}

#[test]
fn rgb_roundtrip_of_rendered_colours() {
    for (r, g, b) in [(0u8, 0u8, 0u8), (0x15, 0xac, 0x7e), (255, 1, 16), (0xab, 0xcd, 0xef)] {
        let text = format!("#{r:02x}{g:02x}{b:02x}");
        assert_eq!(Rgb::parse(&text), Ok(Rgb::new(r, g, b)));
    }
}

const EIGHT: &str = "#151515:#ac4142:#7e8e50:#e5b567:#6c99bb:#9f4e85:#7dd6cf:#d0d0d0";

#[test]
fn palette_of_eight_colours() {
    let palette = parse_palette(EIGHT).unwrap();
    assert_eq!(
        palette,
        vec![
            Rgb::new(0x15, 0x15, 0x15),
            Rgb::new(0xac, 0x41, 0x42),
            Rgb::new(0x7e, 0x8e, 0x50),
            Rgb::new(0xe5, 0xb5, 0x67),
            Rgb::new(0x6c, 0x99, 0xbb),
            Rgb::new(0x9f, 0x4e, 0x85),
            Rgb::new(0x7d, 0xd6, 0xcf),
            Rgb::new(0xd0, 0xd0, 0xd0),
        ]
    );
}

#[test]
fn palette_of_sixteen_colours() {
    let sixteen = format!("{EIGHT}:{EIGHT}");
    assert_eq!(parse_palette(&sixteen).map(|p| p.len()), Ok(16));
}

#[test]
fn palette_wrong_length() {
    assert_eq!(
        parse_palette("#000000:#111111:#222222"),
        Err(PaletteError::WrongLength { found: 3 })
    );
    let nine = format!("{EIGHT}:#000000");
    assert_eq!(parse_palette(&nine), Err(PaletteError::WrongLength { found: 9 }));
}

#[test]
fn palette_reports_first_bad_colour() {
    assert_eq!(
        parse_palette("#000000:#111111:#zzzzzz:#333"),
        Err(PaletteError::Color {
            index: 2,
            source: ColorError::NonHexDigit {
                input: "#zzzzzz".to_owned()
            }
        })
    );
    assert_eq!(
        parse_palette(""),
        Err(PaletteError::Color {
            index: 0,
            source: ColorError::MissingHashPrefix { input: String::new() }
        })
    );
    // A trailing separator yields an empty last colour.
    let trailing = format!("{EIGHT}:");
    assert_eq!(
        parse_palette(&trailing),
        Err(PaletteError::Color {
            index: 8,
            source: ColorError::MissingHashPrefix { input: String::new() }
        })
    );
}

#[test]
fn theme_holds_palette() {
    let theme = Theme {
        fg: Rgb::new(0xd0, 0xd0, 0xd0),
        bg: Rgb::new(0x21, 0x21, 0x21),
        palette: parse_palette(EIGHT).unwrap(),
    };
    assert_eq!(theme.palette.len(), 8);
    assert_eq!(theme.clone(), theme);
}

fn malformed(result: Result<Resize, ParseError>) -> String {
    match result {
        Err(ParseError::MalformedEvent(message)) => message,
        other => panic!("expected a malformed event, got {other:?}"),
    }
}

#[test]
fn resize_parses_cols_and_rows() {
    assert_eq!(Resize::parse("80x24").unwrap(), Resize { cols: 80, rows: 24 });
    assert_eq!(Resize::parse("+100x40").unwrap(), Resize { cols: 100, rows: 40 });
    assert_eq!(Resize::parse("0x65535").unwrap(), Resize { cols: 0, rows: 65535 });
}

#[test]
fn resize_errors_name_the_part() {
    assert_eq!(malformed(Resize::parse("80")), "invalid resize payload: \"80\"");
    assert_eq!(malformed(Resize::parse("ax24")), "invalid resize columns: \"ax24\"");
    assert_eq!(malformed(Resize::parse("x24")), "invalid resize columns: \"x24\"");
    assert_eq!(malformed(Resize::parse("80x")), "invalid resize rows: \"80x\"");
    assert_eq!(malformed(Resize::parse("80x65536")), "invalid resize rows: \"80x65536\"");
    assert_eq!(malformed(Resize::parse("80x24x1")), "invalid resize rows: \"80x24x1\"");
    assert_eq!(malformed(Resize::parse("-1x24")), "invalid resize columns: \"-1x24\"");
    assert_eq!(malformed(Resize::parse(" 80x24")), "invalid resize columns: \" 80x24\"");
}

fn exit(s: &str) -> Result<i32, String> {
    match ExitStatus::parse(s) {
        Ok(status) => Ok(status.code()),
        Err(ParseError::MalformedEvent(message)) => Err(message),
        Err(other) => panic!("unexpected error {other:?}"),
    }
}

#[test]
fn exit_status_parses_trimmed_integers() {
    assert_eq!(exit("0"), Ok(0));
    assert_eq!(exit(" 130\n"), Ok(130));
    assert_eq!(exit("\t-1 "), Ok(-1));
    assert_eq!(exit("+7"), Ok(7));
    assert_eq!(exit("2147483647"), Ok(i32::MAX));
    assert_eq!(exit("-2147483648"), Ok(i32::MIN));
}

#[test]
fn exit_status_rejects_other_text() {
    assert_eq!(exit(""), Err("invalid exit status: \"\"".to_owned()));
    assert_eq!(exit("2147483648"), Err("invalid exit status: \"2147483648\"".to_owned()));
    assert_eq!(exit("-"), Err("invalid exit status: \"-\"".to_owned()));
    assert_eq!(exit("1 2"), Err("invalid exit status: \"1 2\"".to_owned()));
    assert_eq!(exit("x"), Err("invalid exit status: \"x\"".to_owned()));
}

#[test]
fn v2_null_environment_values_are_ignored() {
    let entries = vec![
        ("SHELL".to_owned(), Some("/bin/bash".to_owned())),
        ("TERM".to_owned(), None),
    ];
    let kept = drop_null_values(&entries);
    assert_eq!(
        kept.iter().find(|(name, _)| name == "SHELL").map(|(_, value)| value.as_str()),
        Some("/bin/bash")
    );
    assert!(!kept.iter().any(|(name, _)| name == "TERM"));
}

#[test]
fn null_environment_values_are_dropped() {
    let entries = vec![
        ("SHELL".to_owned(), Some("/bin/bash".to_owned())),
        ("TERM".to_owned(), None),
        ("LANG".to_owned(), Some(String::new())),
    ];
    assert_eq!(
        drop_null_values(&entries),
        vec![
            ("SHELL".to_owned(), "/bin/bash".to_owned()),
            ("LANG".to_owned(), String::new()),
        ]
    );
    assert!(drop_null_values(&Vec::new()).is_empty());
}

#[test]
fn rgb_debug_shows_the_pixel() {
    assert_eq!(format!("{:?}", Rgb::new(1, 2, 3)), "Rgb(Rgb { r: 1, g: 2, b: 3 })");
}
