//! Types shared across `asciicast` versions: colours, themes, resize and
//! exit payloads, and captured environment variables.
use vstd::prelude::*;

use vstd::utf8::encode_utf8;

use crate::error::ParseError;
use crate::versions::pixel;
use crate::text::{
    chars_of, parse_i32_chars, parse_i32_spec, parse_u16_chars, parse_u16_spec, str_debug,
    trim, trim_bounds, with_quoted,
};

verus! {

/// The position of the first `c` in `s`, if any.
pub open spec fn first_index_of(s: Seq<char>, c: char) -> Option<int>
    decreases s.len(),
{
    if s.len() == 0 {
        None
    } else if s[0] == c {
        Some(0)
    } else {
        match first_index_of(s.drop_first(), c) {
            Some(i) => Some(i + 1),
            None => None,
        }
    }
}

/// Where no `c` occurs before position `k`, the first `c` is at `k` if `s[k]`
/// is `c`, and there is none if `k` is the end of `s`.
pub proof fn lemma_first_index_of(s: Seq<char>, c: char, k: int)
    requires
        0 <= k <= s.len(),
        forall|j: int| 0 <= j < k ==> s[j] != c,
    ensures
        k < s.len() && s[k] == c ==> first_index_of(s, c) == Some(k),
        k == s.len() ==> first_index_of(s, c) == None::<int>,
    decreases k,
{
    if k > 0 {
        let t = s.drop_first();
        assert forall|j: int| 0 <= j < k - 1 implies t[j] != c by {
            assert(t[j] == s[j + 1]);
        }
        lemma_first_index_of(t, c, k - 1);
    } else if s.len() > 0 {
    }
}

/// The position of the first `c` in `v`, or `None`.
pub fn find_char(v: &Vec<char>, c: char) -> (r: Option<usize>)
    ensures
        match r {
            Some(i) => first_index_of(v@, c) == Some(i as int) && i < v.len(),
            None => first_index_of(v@, c) == None::<int>,
        },
{
    let mut k: usize = 0;
    while k < v.len()
        invariant
            k <= v.len(),
            forall|j: int| 0 <= j < k ==> v@[j] != c,
        decreases v.len() - k,
    {
        if v[k] == c {
            proof {
                lemma_first_index_of(v@, c, k as int);
            }
            return Some(k);
        }
        k = k + 1;
    }
    proof {
        lemma_first_index_of(v@, c, k as int);
    }
    None
}

/// The new terminal dimensions carried by a resize (`r`) event.
#[derive(Debug, Clone, Copy, PartialEq, Eq, Structural)]
pub struct Resize {
    /// Terminal width in columns.
    pub cols: u16,
    /// Terminal height in rows.
    pub rows: u16,
}

/// What parsing a resize payload whose characters are `s` gives: the text
/// before the first `x` is the column count and the text after it the row
/// count, each as `u16::from_str` reads it.
pub open spec fn resize_outcome(s: Seq<char>, r: Result<Resize, ParseError>) -> bool {
    match first_index_of(s, 'x') {
        None => r matches Err(ParseError::MalformedEvent(m)) && m@ == "invalid resize payload: "@
            + str_debug(s),
        Some(i) => match (parse_u16_spec(s.take(i)), parse_u16_spec(s.skip(i + 1))) {
            (None, _) => r matches Err(ParseError::MalformedEvent(m)) && m@ == "invalid resize columns: "@
                + str_debug(s),
            (Some(_), None) => r matches Err(ParseError::MalformedEvent(m)) && m@
                == "invalid resize rows: "@ + str_debug(s),
            (Some(cols), Some(rows)) => r == Ok::<Resize, ParseError>(Resize { cols, rows }),
        },
    }
}

impl Resize {
    /// Parse a resize payload of the form `"COLSxROWS"` (e.g. `"80x24"`).
    pub fn parse(s: &str) -> (r: Result<Self, ParseError>)
        ensures
            resize_outcome(s@, r),
    {
        let v = chars_of(s);
        match find_char(&v, 'x') {
            None => Err(ParseError::MalformedEvent(with_quoted("invalid resize payload: ", s))),
            Some(i) => {
                assert(v@.subrange(0, i as int) =~= v@.take(i as int));
                assert(v@.subrange(i + 1, v@.len() as int) =~= v@.skip(i + 1));
                match parse_u16_chars(&v, 0, i) {
                    None => Err(
                        ParseError::MalformedEvent(with_quoted("invalid resize columns: ", s)),
                    ),
                    Some(cols) => match parse_u16_chars(&v, i + 1, v.len()) {
                        None => Err(
                            ParseError::MalformedEvent(with_quoted("invalid resize rows: ", s)),
                        ),
                        Some(rows) => Ok(Resize { cols, rows }),
                    },
                }
            },
        }
    }
}

/// The status carried by an exit (`x`) event.
///
/// An opaque newtype over the raw status so the representation can grow (e.g. to
/// distinguish a signal from an exit code) without breaking callers.
#[derive(Debug, Clone, Copy, PartialEq, Eq, Structural)]
pub struct ExitStatus(i32);

impl View for ExitStatus {
    type V = i32;

    closed spec fn view(&self) -> i32 {
        self.0
    }
}

/// What parsing an exit payload whose characters are `s` gives: the
/// whitespace-trimmed text as `i32::from_str` reads it.
pub open spec fn exit_status_outcome(s: Seq<char>, r: Result<ExitStatus, ParseError>) -> bool {
    match parse_i32_spec(trim(s)) {
        Some(n) => r matches Ok(status) && status@ == n,
        None => r matches Err(ParseError::MalformedEvent(m)) && m@ == "invalid exit status: "@
            + str_debug(s),
    }
}

impl ExitStatus {
    /// Two statuses are equal exactly where their codes are.
    pub proof fn lemma_view_determines(a: ExitStatus, b: ExitStatus)
        ensures
            a == b <==> a@ == b@,
    {
    }

    /// Parse an exit payload (a numeric string such as `"0"`).
    pub fn parse(s: &str) -> (r: Result<Self, ParseError>)
        ensures
            exit_status_outcome(s@, r),
    {
        let v = chars_of(s);
        let (lo, hi) = trim_bounds(&v);
        match parse_i32_chars(&v, lo, hi) {
            Some(n) => Ok(ExitStatus(n)),
            None => Err(ParseError::MalformedEvent(with_quoted("invalid exit status: ", s))),
        }
    }

    /// The numeric exit status.
    pub fn code(&self) -> (r: i32)
        ensures
            r == self@,
    {
        self.0
    }
}


/// The reason a CSS `#rrggbb` colour string could not be parsed.
#[derive(Debug, Clone, PartialEq, Eq)]
#[non_exhaustive]
pub enum ColorError {
    /// The string did not start with `#`.
    MissingHashPrefix {
        /// The offending input.
        input: String,
    },
    /// The string did not have exactly six hex digits.
    WrongLength {
        /// The offending input.
        input: String,
        /// The number of digits found after the `#`.
        found: usize,
    },
    /// The string contained a non-hexadecimal digit.
    NonHexDigit {
        /// The offending input.
        input: String,
    },
}

/// An RGB colour parsed from a CSS `#rrggbb` string.
///
/// Construct one with [`Rgb::new`] and read the channels via [`Rgb::r`],
/// [`Rgb::g`], and [`Rgb::b`].
#[derive(Debug, Clone, Copy, PartialEq, Eq, Structural)]
pub struct Rgb(pixel::Rgb);

impl View for Rgb {
    type V = (u8, u8, u8);

    closed spec fn view(&self) -> (u8, u8, u8) {
        (self.0.r, self.0.g, self.0.b)
    }
}

/// Whether `b` is an ASCII hexadecimal digit (`0-9`, `a-f`, `A-F`).
pub open spec fn is_hex_digit(b: u8) -> bool {
    (0x30 <= b && b <= 0x39) || (0x41 <= b && b <= 0x46) || (0x61 <= b && b <= 0x66)
}

/// The value of the ASCII hexadecimal digit `b`.
pub open spec fn hex_digit_value(b: u8) -> int {
    if b <= 0x39 {
        b - 0x30
    } else if b <= 0x46 {
        b - 0x41 + 10
    } else {
        b - 0x61 + 10
    }
}

/// The byte written as the two hexadecimal digits `hi` and `lo`.
pub open spec fn hex_pair(hi: u8, lo: u8) -> u8 {
    (hex_digit_value(hi) * 16 + hex_digit_value(lo)) as u8
}

/// The UTF-8 bytes that follow the leading `#` of a colour string.
pub open spec fn colour_digits(s: Seq<char>) -> Seq<u8> {
    encode_utf8(s.drop_first())
}

/// Whether `s` is a valid `#rrggbb` colour.
pub open spec fn rgb_parses(s: Seq<char>) -> bool {
    let hex = colour_digits(s);
    &&& s.len() > 0
    &&& s[0] == '#'
    &&& hex.len() == 6
    &&& forall|i: int| 0 <= i < 6 ==> is_hex_digit(#[trigger] hex[i])
}

/// The channels of the `#rrggbb` colour `s`.
pub open spec fn rgb_channels(s: Seq<char>) -> (u8, u8, u8) {
    let hex = colour_digits(s);
    (hex_pair(hex[0], hex[1]), hex_pair(hex[2], hex[3]), hex_pair(hex[4], hex[5]))
}

/// What parsing a colour string whose characters are `s` gives.
pub open spec fn rgb_parse_outcome(s: Seq<char>, r: Result<Rgb, ColorError>) -> bool {
    let hex = colour_digits(s);
    if s.len() == 0 || s[0] != '#' {
        r matches Err(ColorError::MissingHashPrefix { input }) && input@ == s
    } else if hex.len() != 6 {
        r matches Err(ColorError::WrongLength { input, found }) && input@ == s && found == hex.len()
    } else if !rgb_parses(s) {
        r matches Err(ColorError::NonHexDigit { input }) && input@ == s
    } else {
        r matches Ok(c) && c@ == rgb_channels(s)
    }
}

/// Whether `b` is an ASCII hexadecimal digit.
fn hex_digit(b: u8) -> (r: Option<u8>)
    ensures
        match r {
            Some(d) => is_hex_digit(b) && d == hex_digit_value(b),
            None => !is_hex_digit(b),
        },
{
    if 0x30 <= b && b <= 0x39 {
        Some(b - 0x30)
    } else if 0x41 <= b && b <= 0x46 {
        Some(b - 0x41 + 10)
    } else if 0x61 <= b && b <= 0x66 {
        Some(b - 0x61 + 10)
    } else {
        None
    }
}

impl Rgb {
    /// Two colours are equal exactly where their channels are.
    pub proof fn lemma_view_determines(a: Rgb, b: Rgb)
        ensures
            a == b <==> a@ == b@,
    {
    }

    /// Construct a colour from its red, green, and blue channels.
    pub fn new(r: u8, g: u8, b: u8) -> (c: Self)
        ensures
            c@ == (r, g, b),
    {
        Rgb(pixel::Rgb { r, g, b })
    }

    /// The red channel.
    pub fn r(&self) -> (v: u8)
        ensures
            v == self@.0,
    {
        self.0.r
    }

    /// The green channel.
    pub fn g(&self) -> (v: u8)
        ensures
            v == self@.1,
    {
        self.0.g
    }

    /// The blue channel.
    pub fn b(&self) -> (v: u8)
        ensures
            v == self@.2,
    {
        self.0.b
    }

    /// Parse a single `#rrggbb` colour, validating the `#` prefix and six hex
    /// digits.
    pub fn parse(s: &str) -> (r: Result<Self, ColorError>)
        ensures
            rgb_parse_outcome(s@, r),
    {
        let n = s.unicode_len();
        if n == 0 || s.get_char(0) != '#' {
            return Err(ColorError::MissingHashPrefix { input: s.to_owned() });
        }
        let hex = s.substring_char(1, n);
        assert(hex@ =~= s@.drop_first());
        let bytes = hex.as_bytes();
        if bytes.len() != 6 {
            return Err(ColorError::WrongLength { input: s.to_owned(), found: bytes.len() });
        }
        let mut values: [u8; 6] = [0; 6];
        let mut i: usize = 0;
        while i < 6
            invariant
                i <= 6,
                s@.len() > 0 && s@[0] == '#',
                bytes@ == colour_digits(s@),
                bytes@.len() == 6,
                forall|j: int| 0 <= j < i ==> is_hex_digit(#[trigger] bytes@[j]) && values@[j]
                    == hex_digit_value(bytes@[j]),
            decreases 6 - i,
        {
            match hex_digit(bytes[i]) {
                Some(d) => {
                    values[i] = d;
                },
                None => {
                    assert(!is_hex_digit(colour_digits(s@)[i as int]));
                    return Err(ColorError::NonHexDigit { input: s.to_owned() });
                },
            }
            i = i + 1;
        }
        assert(forall|j: int| 0 <= j < 6 ==> values@[j] < 16) by {
            assert forall|j: int| 0 <= j < 6 implies values@[j] < 16 by {
                assert(is_hex_digit(bytes@[j]));
            }
        }
        assert(rgb_parses(s@));
        let red = values[0] * 16 + values[1];
        let green = values[2] * 16 + values[3];
        let blue = values[4] * 16 + values[5];
        Ok(Rgb(pixel::Rgb { r: red, g: green, b: blue }))
    }
}


/// The reason a theme `palette` string could not be parsed.
#[derive(Debug, Clone, PartialEq, Eq)]
#[non_exhaustive]
pub enum PaletteError {
    /// A colour within the palette was invalid.
    Color {
        /// The zero-based index of the offending colour.
        index: usize,
        /// The underlying colour error.
        source: ColorError,
    },
    /// The palette did not contain 8 or 16 colours.
    WrongLength {
        /// The number of colours found.
        found: usize,
    },
}

/// The pieces of `s` between occurrences of `sep`, as `str::split` yields them
/// (an empty `s` gives one empty piece).
pub open spec fn split_on(s: Seq<char>, sep: char) -> Seq<Seq<char>>
    decreases s.len(),
{
    if s.len() == 0 {
        seq![Seq::<char>::empty()]
    } else {
        let init = split_on(s.drop_last(), sep);
        if s.last() == sep {
            init.push(Seq::<char>::empty())
        } else {
            init.update(init.len() - 1, init.last().push(s.last()))
        }
    }
}

/// `split_on` always yields at least one piece.
pub proof fn lemma_split_on_nonempty(s: Seq<char>, sep: char)
    ensures
        split_on(s, sep).len() >= 1,
    decreases s.len(),
{
    if s.len() > 0 {
        lemma_split_on_nonempty(s.drop_last(), sep);
    }
}

proof fn lemma_split_on_prefix(s: Seq<char>, sep: char, i: int)
    requires
        0 <= i <= s.len(),
    ensures
        split_on(s.take(i), sep).len() <= split_on(s, sep).len(),
        forall|k: int|
            0 <= k < split_on(s.take(i), sep).len() - 1 ==> #[trigger] split_on(s, sep)[k]
                == split_on(s.take(i), sep)[k],
    decreases s.len() - i,
{
    lemma_split_on_nonempty(s, sep);
    if i == s.len() {
        assert(s.take(i) =~= s);
    } else {
        let t = s.drop_last();
        assert(t.take(i) =~= s.take(i));
        lemma_split_on_prefix(t, sep, i);
        lemma_split_on_nonempty(t, sep);
    }
}

/// Whether every piece of `pieces` is a valid colour.
pub open spec fn all_colours_parse(pieces: Seq<Seq<char>>, upto: int) -> bool {
    forall|j: int| 0 <= j < upto ==> rgb_parses(#[trigger] pieces[j])
}

/// What parsing a palette string whose characters are `s` gives: the
/// `:`-separated colours in order, of which there must be 8 or 16; otherwise
/// the first invalid colour, or the count.
pub open spec fn palette_outcome(s: Seq<char>, r: Result<Vec<Rgb>, PaletteError>) -> bool {
    let pieces = split_on(s, ':');
    match r {
        Ok(colours) => {
            &&& all_colours_parse(pieces, pieces.len() as int)
            &&& pieces.len() == 8 || pieces.len() == 16
            &&& colours.len() == pieces.len()
            &&& forall|j: int| 0 <= j < colours.len() ==> #[trigger] colours@[j]@ == rgb_channels(pieces[j])
        },
        Err(PaletteError::Color { index, source }) => {
            &&& index < pieces.len()
            &&& all_colours_parse(pieces, index as int)
            &&& !rgb_parses(pieces[index as int])
            &&& rgb_parse_outcome(pieces[index as int], Err(source))
        },
        Err(PaletteError::WrongLength { found }) => {
            &&& all_colours_parse(pieces, pieces.len() as int)
            &&& found == pieces.len()
            &&& found != 8
            &&& found != 16
        },
    }
}

/// Parse a palette: a single colon-delimited string of `#rrggbb` colours.
///
/// The asciicast spec requires either 8 or 16 colours.
pub fn parse_palette(s: &str) -> (r: Result<Vec<Rgb>, PaletteError>)
    ensures
        palette_outcome(s@, r),
{
    let v = chars_of(s);
    let n = v.len();
    let mut out: Vec<Rgb> = Vec::new();
    let mut start: usize = 0;
    let mut i: usize = 0;
    assert(v@.take(0) =~= Seq::<char>::empty());
    while i < n
        invariant
            n == v.len(),
            v@ == s@,
            start <= i <= n,
            split_on(v@.take(i as int), ':').len() == out.len() + 1,
            split_on(v@.take(i as int), ':').last() == v@.subrange(start as int, i as int),
            forall|j: int|
                0 <= j < out.len() ==> rgb_parses(#[trigger] split_on(v@.take(i as int), ':')[j])
                    && out@[j]@ == rgb_channels(split_on(v@.take(i as int), ':')[j]),
        decreases n - i,
    {
        let ghost before = split_on(v@.take(i as int), ':');
        let ghost after = split_on(v@.take(i + 1), ':');
        assert(v@.take(i + 1).drop_last() =~= v@.take(i as int));
        assert(v@.take(i + 1).last() == v@[i as int]);
        if v[i] == ':' {
            let piece = s.substring_char(start, i);
            proof {
                lemma_split_on_prefix(v@, ':', i + 1);
                assert(after == before.push(Seq::<char>::empty()));
                assert(split_on(v@, ':')[out.len() as int] == before.last());
            }
            match Rgb::parse(piece) {
                Ok(c) => {
                    out.push(c);
                },
                Err(e) => {
                    proof {
                        lemma_split_on_prefix(v@, ':', i as int);
                        assert(v@ =~= s@);
                        assert forall|j: int| 0 <= j < out.len() implies rgb_parses(
                            #[trigger] split_on(s@, ':')[j],
                        ) by {
                            assert(split_on(v@, ':')[j] == before[j]);
                        }
                    }
                    return Err(PaletteError::Color { index: out.len(), source: e });
                },
            }
            start = i + 1;
            proof {
                assert forall|j: int| 0 <= j < out.len() implies rgb_parses(#[trigger] after[j])
                    && out@[j]@ == rgb_channels(after[j]) by {
                    if j < out.len() - 1 {
                        assert(after[j] == before[j]);
                    }
                }
                assert(v@.subrange(start as int, i + 1) =~= Seq::<char>::empty());
            }
        } else {
            proof {
                lemma_split_on_nonempty(v@.take(i as int), ':');
                assert(after == before.update(before.len() - 1, before.last().push(v@[i as int])));
                assert(after.last() =~= v@.subrange(start as int, i + 1));
                assert forall|j: int| 0 <= j < out.len() implies rgb_parses(#[trigger] after[j])
                    && out@[j]@ == rgb_channels(after[j]) by {
                    assert(after[j] == before[j]);
                }
            }
        }
        i = i + 1;
    }
    assert(v@.take(n as int) =~= v@);
    assert(v@ =~= s@);
    let piece = s.substring_char(start, n);
    match Rgb::parse(piece) {
        Ok(c) => {
            out.push(c);
        },
        Err(e) => {
            return Err(PaletteError::Color { index: out.len(), source: e });
        },
    }
    let count = out.len();
    if count != 8 && count != 16 {
        return Err(PaletteError::WrongLength { found: count });
    }
    Ok(out)
}


/// A terminal colour scheme.
///
/// Shared by v2 (top-level `theme`) and v3 (nested under `term.theme`).
#[derive(Debug, Clone, PartialEq, Eq)]
pub struct Theme {
    /// Foreground (normal text) colour.
    pub fg: Rgb,
    /// Background colour.
    pub bg: Rgb,
    /// Colour palette: 8 or 16 colours.
    pub palette: Vec<Rgb>,
}

/// Environment variables captured in a recording's header.
///
/// The spec models this as a JSON object of string keys to string values
/// (commonly `TERM` and `SHELL`).
pub type Env = std::collections::BTreeMap<String, String>;

/// The characters of each name and, where present, of each value.
pub open spec fn env_entry_views(entries: Seq<(String, Option<String>)>) -> Seq<
    (Seq<char>, Option<Seq<char>>),
> {
    Seq::new(
        entries.len(),
        |i: int|
            (
                entries[i].0@,
                match entries[i].1 {
                    Some(v) => Some(v@),
                    None => None,
                },
            ),
    )
}

/// The entries of `entries` that carry a value, in order.
pub open spec fn present_entries(entries: Seq<(Seq<char>, Option<Seq<char>>)>) -> Seq<
    (Seq<char>, Seq<char>),
>
    decreases entries.len(),
{
    if entries.len() == 0 {
        Seq::empty()
    } else {
        let init = present_entries(entries.drop_last());
        match entries.last().1 {
            Some(v) => init.push((entries.last().0, v)),
            None => init,
        }
    }
}

/// Keep the environment entries whose value is not null, in order: a
/// variable recorded as `null` is treated as absent.
pub fn drop_null_values(entries: &Vec<(String, Option<String>)>) -> (kept: Vec<(String, String)>)
    ensures
        kept@.map_values(|e: (String, String)| (e.0@, e.1@)) == present_entries(
            env_entry_views(entries@),
        ),
{
    let mut kept: Vec<(String, String)> = Vec::new();
    let mut i: usize = 0;
    while i < entries.len()
        invariant
            i <= entries.len(),
            kept@.map_values(|e: (String, String)| (e.0@, e.1@)) == present_entries(
                env_entry_views(entries@).take(i as int),
            ),
        decreases entries.len() - i,
    {
        let ghost views = env_entry_views(entries@);
        assert(views.take(i + 1).drop_last() =~= views.take(i as int));
        let ghost prev = kept@;
        match &entries[i].1 {
            Some(value) => {
                kept.push((entries[i].0.clone(), value.clone()));
                assert(kept@.map_values(|e: (String, String)| (e.0@, e.1@)) =~= prev.map_values(
                    |e: (String, String)| (e.0@, e.1@),
                ).push((entries@[i as int].0@, value@)));
            },
            None => {},
        }
        i = i + 1;
    }
    assert(env_entry_views(entries@).take(entries.len() as int) =~= env_entry_views(entries@));
    kept
}


} // verus!
