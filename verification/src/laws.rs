//! Properties of the parsers that span inputs or functions.
use vstd::prelude::*;
use vstd::utf8::{
    encode_utf8, encode_utf8_valid_utf8, is_ascii_chars, is_ascii_chars_encode_utf8, pop_first_scalar,
    valid_first_scalar, valid_utf8,
};

use crate::source::zstd_magic;

use crate::error::ParseError;
use crate::text::{
    all_digits, char_is_whitespace, decimal_value, digit_value, is_ascii_digit, lemma_trim_end_cut,
    lemma_trim_start_skip, parse_i32_spec, parse_u16_spec, trim, trim_end, trim_start,
    unsigned_digits,
};
use crate::reader::{
    end_of_input_outcome, event_positions, first_nonblank, line_action, line_kind, line_views, ndjson_outcome, streamed_events,
    streamed_phase, LineAction, LineKind, ReaderPhase,
};
use crate::versions::common::{
    colour_digits, palette_outcome, present_entries, rgb_channels, split_on, hex_digit_value, hex_pair, is_hex_digit, rgb_parse_outcome, rgb_parses, Rgb,
    exit_status_outcome, first_index_of, lemma_first_index_of, resize_outcome, ExitStatus, Resize,
};

verus! {

/// The ASCII digit whose value is `d` (for `d < 10`).
pub open spec fn digit_char(d: nat) -> char {
    if d == 0 {
        '0'
    } else if d == 1 {
        '1'
    } else if d == 2 {
        '2'
    } else if d == 3 {
        '3'
    } else if d == 4 {
        '4'
    } else if d == 5 {
        '5'
    } else if d == 6 {
        '6'
    } else if d == 7 {
        '7'
    } else if d == 8 {
        '8'
    } else {
        '9'
    }
}

/// The decimal numeral of `n`, without leading zeros.
pub open spec fn decimal_numeral(n: nat) -> Seq<char>
    decreases n,
{
    if n < 10 {
        seq![digit_char(n)]
    } else {
        decimal_numeral(n / 10).push(digit_char(n % 10))
    }
}

/// The decimal numeral of `n`, with a leading `-` where `n` is negative.
pub open spec fn signed_numeral(n: int) -> Seq<char> {
    if n < 0 {
        seq!['-'] + decimal_numeral((0 - n) as nat)
    } else {
        decimal_numeral(n as nat)
    }
}

proof fn lemma_digit_char(d: nat)
    requires
        d < 10,
    ensures
        is_ascii_digit(digit_char(d)),
        digit_value(digit_char(d)) == d,
{
}

proof fn lemma_decimal_numeral(n: nat)
    ensures
        decimal_numeral(n).len() > 0,
        all_digits(decimal_numeral(n)),
        decimal_value(decimal_numeral(n)) == n,
    decreases n,
{
    if n < 10 {
        lemma_digit_char(n);
        assert(decimal_numeral(n).drop_last() =~= Seq::<char>::empty());
        assert(decimal_value(Seq::<char>::empty()) == 0);
        assert(decimal_numeral(n).last() == digit_char(n));
        assert(decimal_value(decimal_numeral(n)) == n);
    } else {
        lemma_digit_char(n % 10);
        assert(n == (n / 10) * 10 + n % 10);
        lemma_decimal_numeral(n / 10);
        let s = decimal_numeral(n);
        assert(s.drop_last() =~= decimal_numeral(n / 10));
        assert(s.last() == digit_char(n % 10));
        assert(decimal_value(s) == decimal_value(decimal_numeral(n / 10)) * 10 + (n % 10));
        assert forall|i: int| 0 <= i < s.len() implies is_ascii_digit(#[trigger] s[i]) by {
            if i < s.len() - 1 {
                assert(s[i] == decimal_numeral(n / 10)[i]);
            }
        }
    }
}

proof fn lemma_digits_not_x(s: Seq<char>)
    requires
        all_digits(s),
    ensures
        first_index_of(s, 'x') == None::<int>,
{
    assert forall|j: int| 0 <= j < s.len() implies s[j] != 'x' by {
        assert(is_ascii_digit(s[j]));
    }
    lemma_first_index_of(s, 'x', s.len() as int);
}

/// A resize payload written as `COLSxROWS` in decimal parses to exactly
/// those dimensions.
pub proof fn law_resize_payload_roundtrip(cols: u16, rows: u16)
    ensures
        forall|r: Result<Resize, ParseError>|
            resize_outcome(
                decimal_numeral(cols as nat) + seq!['x'] + decimal_numeral(rows as nat),
                r,
            ) ==> r == Ok::<Resize, ParseError>(Resize { cols, rows }),
{
    let a = decimal_numeral(cols as nat);
    let b = decimal_numeral(rows as nat);
    let s = a + seq!['x'] + b;
    lemma_decimal_numeral(cols as nat);
    lemma_decimal_numeral(rows as nat);
    lemma_digits_not_x(a);
    assert forall|j: int| 0 <= j < a.len() implies s[j] != 'x' by {
        assert(s[j] == a[j]);
        assert(is_ascii_digit(a[j]));
    }
    lemma_first_index_of(s, 'x', a.len() as int);
    assert(s.take(a.len() as int) =~= a);
    assert(s.skip(a.len() as int + 1) =~= b);
    assert(is_ascii_digit(a[0]));
    assert(is_ascii_digit(b[0]));
    assert(unsigned_digits(a) == a);
    assert(unsigned_digits(b) == b);
}

proof fn lemma_trim_padded(left: Seq<char>, d: Seq<char>, right: Seq<char>)
    requires
        d.len() > 0,
        !char_is_whitespace(d[0]),
        !char_is_whitespace(d.last()),
        forall|j: int| 0 <= j < left.len() ==> char_is_whitespace(#[trigger] left[j]),
        forall|j: int| 0 <= j < right.len() ==> char_is_whitespace(#[trigger] right[j]),
    ensures
        trim(left + d + right) == d,
{
    let s = left + d + right;
    assert forall|j: int| 0 <= j < left.len() implies char_is_whitespace(#[trigger] s[j]) by {
        assert(s[j] == left[j]);
    }
    lemma_trim_start_skip(s, left.len() as int);
    let t = s.subrange(left.len() as int, s.len() as int);
    assert(t =~= d + right);
    assert(trim_start(t) == t);
    assert forall|j: int| d.len() <= j < t.len() implies char_is_whitespace(#[trigger] t[j]) by {
        assert(t[j] == right[j - d.len()]);
    }
    lemma_trim_end_cut(t, d.len() as int);
    assert(t.subrange(0, d.len() as int) =~= d);
    assert(trim_end(d) == d);
}

/// An exit payload holding the decimal numeral of `n`, with any whitespace
/// around it, parses to the status `n`.
pub proof fn law_exit_status_roundtrip(n: i32, left: Seq<char>, right: Seq<char>)
    requires
        forall|j: int| 0 <= j < left.len() ==> char_is_whitespace(#[trigger] left[j]),
        forall|j: int| 0 <= j < right.len() ==> char_is_whitespace(#[trigger] right[j]),
    ensures
        forall|r: Result<ExitStatus, ParseError>|
            exit_status_outcome(left + signed_numeral(n as int) + right, r) ==> (r matches Ok(
                status,
            ) && status@ == n),
{
    let d = signed_numeral(n as int);
    if n < 0 {
        let m = (0 - n) as nat;
        lemma_decimal_numeral(m);
        let digits = decimal_numeral(m);
        assert(d.drop_first() =~= digits);
        assert(is_ascii_digit(digits[digits.len() - 1]));
        assert(d.last() == digits.last());
    } else {
        lemma_decimal_numeral(n as nat);
        assert(is_ascii_digit(d[0]));
        assert(is_ascii_digit(d[d.len() - 1]));
        assert(unsigned_digits(d) == d);
    }
    lemma_trim_padded(left, d, right);
    assert(parse_i32_spec(trim(left + d + right)) == Some(n));
}


/// The lowercase hexadecimal digit whose value is `d` (for `d < 16`).
pub open spec fn hex_char(d: nat) -> char {
    if d < 10 {
        digit_char(d)
    } else if d == 10 {
        'a'
    } else if d == 11 {
        'b'
    } else if d == 12 {
        'c'
    } else if d == 13 {
        'd'
    } else if d == 14 {
        'e'
    } else {
        'f'
    }
}

/// The CSS `#rrggbb` text of the colour with channels `r`, `g` and `b`.
pub open spec fn hex_colour(r: u8, g: u8, b: u8) -> Seq<char> {
    seq![
        '#',
        hex_char((r / 16) as nat),
        hex_char((r % 16) as nat),
        hex_char((g / 16) as nat),
        hex_char((g % 16) as nat),
        hex_char((b / 16) as nat),
        hex_char((b % 16) as nat),
    ]
}

proof fn lemma_hex_char(d: nat)
    requires
        d < 16,
    ensures
        is_hex_digit(hex_char(d) as u8),
        hex_digit_value(hex_char(d) as u8) == d,
        '\0' <= hex_char(d) <= '\u{7f}',
{
}

proof fn lemma_hex_pair(v: u8)
    ensures
        hex_pair(hex_char((v / 16) as nat) as u8, hex_char((v % 16) as nat) as u8) == v,
{
    lemma_hex_char((v / 16) as nat);
    lemma_hex_char((v % 16) as nat);
}

/// The uppercase hexadecimal digit whose value is `d` (for `d < 16`).
pub open spec fn hex_char_upper(d: nat) -> char {
    if d < 10 {
        digit_char(d)
    } else if d == 10 {
        'A'
    } else if d == 11 {
        'B'
    } else if d == 12 {
        'C'
    } else if d == 13 {
        'D'
    } else if d == 14 {
        'E'
    } else {
        'F'
    }
}

/// The CSS `#RRGGBB` text, in uppercase, of the colour with channels `r`,
/// `g` and `b`.
pub open spec fn hex_colour_upper(r: u8, g: u8, b: u8) -> Seq<char> {
    seq![
        '#',
        hex_char_upper((r / 16) as nat),
        hex_char_upper((r % 16) as nat),
        hex_char_upper((g / 16) as nat),
        hex_char_upper((g % 16) as nat),
        hex_char_upper((b / 16) as nat),
        hex_char_upper((b % 16) as nat),
    ]
}

proof fn lemma_hex_char_upper(d: nat)
    requires
        d < 16,
    ensures
        is_hex_digit(hex_char_upper(d) as u8),
        hex_digit_value(hex_char_upper(d) as u8) == d,
        '\0' <= hex_char_upper(d) <= '\u{7f}',
{
}

proof fn lemma_hex_pair_upper(v: u8)
    ensures
        hex_pair(hex_char_upper((v / 16) as nat) as u8, hex_char_upper((v % 16) as nat) as u8) == v,
{
    lemma_hex_char_upper((v / 16) as nat);
    lemma_hex_char_upper((v % 16) as nat);
}

/// A `#` followed by six ASCII hexadecimal digits is a colour, whose channels
/// are the digit pairs.
proof fn lemma_colour_text(s: Seq<char>)
    requires
        s.len() == 7,
        s[0] == '#',
        forall|i: int| 1 <= i < 7 ==> '\0' <= #[trigger] s[i] <= '\u{7f}' && is_hex_digit(s[i] as u8),
    ensures
        rgb_parses(s),
        rgb_channels(s) == (
            hex_pair(s[1] as u8, s[2] as u8),
            hex_pair(s[3] as u8, s[4] as u8),
            hex_pair(s[5] as u8, s[6] as u8),
        ),
        forall|res: Result<Rgb, crate::versions::common::ColorError>|
            rgb_parse_outcome(s, res) ==> (res matches Ok(c) && c@ == rgb_channels(s)),
{
    let tail = s.drop_first();
    assert forall|i: int| 0 <= i < tail.len() implies '\0' <= #[trigger] tail[i] <= '\u{7f}' by {
        assert(tail[i] == s[i + 1]);
    }
    assert(is_ascii_chars(tail));
    is_ascii_chars_encode_utf8(tail);
    let hex = colour_digits(s);
    assert(hex.len() == 6);
    assert forall|i: int| 0 <= i < 6 implies is_hex_digit(#[trigger] hex[i]) by {
        assert(hex[i] == tail[i] as u8);
        assert(tail[i] == s[i + 1]);
    }
    assert(hex[0] == s[1] as u8);
    assert(hex[1] == s[2] as u8);
    assert(hex[2] == s[3] as u8);
    assert(hex[3] == s[4] as u8);
    assert(hex[4] == s[5] as u8);
    assert(hex[5] == s[6] as u8);
}

/// The lowercase `#rrggbb` text of any colour parses back to that colour.
pub proof fn law_rgb_roundtrip(r: u8, g: u8, b: u8)
    ensures
        rgb_parses(hex_colour(r, g, b)),
        rgb_channels(hex_colour(r, g, b)) == (r, g, b),
        forall|res: Result<Rgb, crate::versions::common::ColorError>|
            rgb_parse_outcome(hex_colour(r, g, b), res) ==> (res matches Ok(c) && c@ == (r, g, b)),
{
    let s = hex_colour(r, g, b);
    lemma_hex_char((r / 16) as nat);
    lemma_hex_char((r % 16) as nat);
    lemma_hex_char((g / 16) as nat);
    lemma_hex_char((g % 16) as nat);
    lemma_hex_char((b / 16) as nat);
    lemma_hex_char((b % 16) as nat);
    lemma_colour_text(s);
    lemma_hex_pair(r);
    lemma_hex_pair(g);
    lemma_hex_pair(b);
}

/// The uppercase `#RRGGBB` text of any colour parses back to that colour:
/// hexadecimal digits are read in either case.
pub proof fn law_rgb_roundtrip_uppercase(r: u8, g: u8, b: u8)
    ensures
        rgb_parses(hex_colour_upper(r, g, b)),
        rgb_channels(hex_colour_upper(r, g, b)) == (r, g, b),
        forall|res: Result<Rgb, crate::versions::common::ColorError>|
            rgb_parse_outcome(hex_colour_upper(r, g, b), res) ==> (res matches Ok(c) && c@ == (
                r,
                g,
                b,
            )),
{
    let s = hex_colour_upper(r, g, b);
    lemma_hex_char_upper((r / 16) as nat);
    lemma_hex_char_upper((r % 16) as nat);
    lemma_hex_char_upper((g / 16) as nat);
    lemma_hex_char_upper((g % 16) as nat);
    lemma_hex_char_upper((b / 16) as nat);
    lemma_hex_char_upper((b % 16) as nat);
    lemma_colour_text(s);
    lemma_hex_pair_upper(r);
    lemma_hex_pair_upper(g);
    lemma_hex_pair_upper(b);
}

/// `#`-prefixed lines are comments only where comments are enabled (v3);
/// elsewhere they are content, and blank lines are blank either way.
pub proof fn law_comments_only_when_enabled(line: Seq<char>)
    ensures
        line_kind(line, false) != LineKind::Comment,
        line_kind(line, true) == LineKind::Blank <==> line_kind(line, false) == LineKind::Blank,
        line_kind(line, true) == LineKind::Comment ==> line_kind(line, false) == LineKind::Content,
        line_kind(line, true) == LineKind::Content ==> line_kind(line, false) == LineKind::Content,
{
}

proof fn lemma_event_positions_local(
    lines: Seq<Seq<char>>,
    more: Seq<Seq<char>>,
    skip: bool,
    from: int,
    to: int,
)
    requires
        0 <= from,
        to <= lines.len(),
    ensures
        event_positions(lines + more, skip, from, to) == event_positions(lines, skip, from, to),
    decreases to - from,
{
    if to > from {
        lemma_event_positions_local(lines, more, skip, from, to - 1);
        assert((lines + more)[to - 1] == lines[to - 1]);
    }
}

proof fn lemma_blank_tail_positions(
    lines: Seq<Seq<char>>,
    blanks: Seq<Seq<char>>,
    skip: bool,
    from: int,
    to: int,
)
    requires
        0 <= from <= lines.len() <= to <= lines.len() + blanks.len(),
        forall|j: int| 0 <= j < blanks.len() ==> trim(#[trigger] blanks[j]).len() == 0,
    ensures
        event_positions(lines + blanks, skip, from, to) == event_positions(
            lines,
            skip,
            from,
            lines.len() as int,
        ),
    decreases to,
{
    if to > lines.len() {
        lemma_blank_tail_positions(lines, blanks, skip, from, to - 1);
        assert((lines + blanks)[to - 1] == blanks[to - 1 - lines.len()]);
    } else {
        lemma_event_positions_local(lines, blanks, skip, from, to);
    }
}

/// Blank lines at the end of a recording add no events.
pub proof fn law_trailing_blank_lines_add_no_events(
    lines: Seq<Seq<char>>,
    blanks: Seq<Seq<char>>,
    skip_comments: bool,
    from: int,
)
    requires
        0 <= from <= lines.len(),
        forall|j: int| 0 <= j < blanks.len() ==> trim(#[trigger] blanks[j]).len() == 0,
    ensures
        event_positions(lines + blanks, skip_comments, from, (lines + blanks).len() as int)
            == event_positions(lines, skip_comments, from, lines.len() as int),
{
    lemma_blank_tail_positions(lines, blanks, skip_comments, from, (lines + blanks).len() as int);
}


/// A recording with no non-blank line is missing its header, whatever the
/// per-version readers do, unless reading itself failed.
pub proof fn law_blank_input_is_missing_header<
    H,
    E,
    PH: Fn(&String) -> Result<H, ParseError>,
    HV: Fn(&H) -> u8,
    PE: Fn(&String) -> Result<E, ParseError>,
>(
    lines: Seq<String>,
    expected: u8,
    skip_comments: bool,
    parse_header: PH,
    header_version: HV,
    parse_event: PE,
    r: Result<(H, Vec<E>), ParseError>,
)
    requires
        forall|j: int| 0 <= j < lines.len() ==> trim(#[trigger] lines[j]@).len() == 0,
        ndjson_outcome(
            lines,
            None,
            expected,
            skip_comments,
            parse_header,
            header_version,
            parse_event,
            r,
        ),
    ensures
        r matches Err(ParseError::MissingHeader),
{
    let views = line_views(lines);
    assert forall|j: int| 0 <= j < views.len() implies trim(#[trigger] views[j]).len() == 0 by {
        assert(views[j] == lines[j]@);
    }
    crate::reader::lemma_first_nonblank_skip(views, views.len() as int);
}

/// A typed v3 payload carries the event code that its wire code names.
pub proof fn law_v3_payload_code_matches_wire_code(
    code: Seq<char>,
    data: Seq<char>,
    r: Result<crate::versions::v3::EventPayload, ParseError>,
)
    requires
        crate::versions::v3::payload_outcome(code, data, r),
        r is Ok,
    ensures
        r->Ok_0.kind() == crate::versions::v3::code_named(code),
{
}

/// A typed v2 payload carries the event code that its wire code names.
pub proof fn law_v2_payload_code_matches_wire_code(
    code: Seq<char>,
    text: Option<Seq<char>>,
    data: serde_json::Value,
    r: Result<crate::versions::v2::EventPayload, ParseError>,
)
    requires
        crate::versions::v2::payload_outcome(code, text, data, r),
        r is Ok,
    ensures
        r->Ok_0.kind() == crate::versions::v2::code_named(code),
{
}

proof fn lemma_first_nonblank_bounds(lines: Seq<Seq<char>>, from: int)
    requires
        0 <= from <= lines.len(),
    ensures
        from <= first_nonblank(lines, from) <= lines.len(),
        forall|j: int| from <= j < first_nonblank(lines, from) ==> trim(#[trigger] lines[j]).len() == 0,
        first_nonblank(lines, from) < lines.len() ==> trim(lines[first_nonblank(lines, from)]).len() > 0,
    decreases lines.len() - from,
{
    if from < lines.len() && trim(lines[from]).len() == 0 {
        lemma_first_nonblank_bounds(lines, from + 1);
    }
}

proof fn lemma_streamed_prefix(lines: Seq<Seq<char>>, skip_comments: bool, n: int)
    requires
        0 <= n <= lines.len(),
    ensures
        n <= first_nonblank(lines, 0) ==> streamed_phase(lines, skip_comments, n)
            == ReaderPhase::AwaitingHeader && streamed_events(lines, skip_comments, n) == Seq::<
            int,
        >::empty(),
        n > first_nonblank(lines, 0) ==> streamed_phase(lines, skip_comments, n) == ReaderPhase::Events
            && streamed_events(lines, skip_comments, n) == event_positions(
            lines,
            skip_comments,
            first_nonblank(lines, 0) + 1,
            n,
        ),
    decreases n,
{
    let hi = first_nonblank(lines, 0);
    lemma_first_nonblank_bounds(lines, 0);
    if n > 0 {
        lemma_streamed_prefix(lines, skip_comments, n - 1);
        if n - 1 < hi {
            assert(trim(lines[n - 1]).len() == 0);
        } else if n - 1 == hi {
            assert(line_action(ReaderPhase::AwaitingHeader, lines[hi], skip_comments)
                == LineAction::Header);
        }
    }
}

/// A reader that takes the lines of a recording one at a time, deciding each
/// with `next_action` and `next_phase`, takes as its header the line that the
/// eager parse takes; where there is none, the input ends before it leaves the
/// header phase and `end_of_input` reports the missing header, as the eager
/// parse does; otherwise the end of input completes the events. It treats as
/// events exactly the lines that the eager parse reads as events, in the same
/// order.
pub proof fn law_streaming_matches_eager(lines: Seq<Seq<char>>, skip_comments: bool)
    ensures
        first_nonblank(lines, 0) < lines.len() ==> streamed_phase(
            lines,
            skip_comments,
            first_nonblank(lines, 0),
        ) == ReaderPhase::AwaitingHeader && line_action(
            ReaderPhase::AwaitingHeader,
            lines[first_nonblank(lines, 0)],
            skip_comments,
        ) == LineAction::Header,
        first_nonblank(lines, 0) >= lines.len() ==> streamed_phase(
            lines,
            skip_comments,
            lines.len() as int,
        ) == ReaderPhase::AwaitingHeader,
        end_of_input_outcome(streamed_phase(lines, skip_comments, lines.len() as int)) == (if first_nonblank(
            lines,
            0,
        ) < lines.len() {
            Ok::<(), ParseError>(())
        } else {
            Err::<(), ParseError>(ParseError::MissingHeader)
        }),
        streamed_events(lines, skip_comments, lines.len() as int) == (if first_nonblank(lines, 0)
            < lines.len() {
            event_positions(lines, skip_comments, first_nonblank(lines, 0) + 1, lines.len() as int)
        } else {
            Seq::<int>::empty()
        }),
{
    lemma_first_nonblank_bounds(lines, 0);
    lemma_streamed_prefix(lines, skip_comments, lines.len() as int);
    if first_nonblank(lines, 0) < lines.len() {
        lemma_streamed_prefix(lines, skip_comments, first_nonblank(lines, 0));
    }
}

/// Uncompressed input is read unchanged: no prefix of UTF-8 text (such as a
/// JSON recording) starts with the zstd magic number, whose second byte can
/// only continue a multi-byte character while its first byte is a whole one.
pub proof fn law_text_is_never_taken_for_zstd(text: Seq<char>, prefix: Seq<u8>)
    requires
        prefix.len() <= encode_utf8(text).len(),
        prefix == encode_utf8(text).take(prefix.len() as int),
    ensures
        !(prefix.len() >= 4 && prefix.take(4) == zstd_magic()),
{
    let b = encode_utf8(text);
    encode_utf8_valid_utf8(text);
    if prefix.len() >= 4 && prefix.take(4) == zstd_magic() {
        assert(b[0] == prefix.take(4)[0]);
        assert(b[1] == prefix.take(4)[1]);
        assert(b[0] == 0x28u8 && b[1] == 0xb5u8);
        assert(valid_utf8(b));
        let rest = pop_first_scalar(b);
        assert(rest[0] == b[1]);
        assert(valid_utf8(rest));
        assert(!valid_first_scalar(rest));
    }
}

/// A palette that parses holds 8 or 16 colours, one for each `:`-separated
/// piece of its text.
pub proof fn law_palette_has_8_or_16_colours(
    s: Seq<char>,
    r: Result<Vec<Rgb>, crate::versions::common::PaletteError>,
)
    requires
        palette_outcome(s, r),
        r is Ok,
    ensures
        r->Ok_0.len() == 8 || r->Ok_0.len() == 16,
        r->Ok_0.len() == crate::versions::common::split_on(s, ':').len(),
{
}

/// A v3 event keeps its data exactly: `o`, `i` and `m` type it as output,
/// input and marker text with every character kept (nothing trimmed), and a
/// code other than `o`, `i`, `m`, `r` and `x` is kept whole with its data.
pub proof fn law_v3_event_data_is_kept(
    code: Seq<char>,
    data: Seq<char>,
    r: Result<crate::versions::v3::EventPayload, ParseError>,
)
    requires
        crate::versions::v3::payload_outcome(code, data, r),
    ensures
        code == seq!['o'] ==> (r matches Ok(crate::versions::v3::EventPayload::Output(t)) && t@ == data),
        code == seq!['i'] ==> (r matches Ok(crate::versions::v3::EventPayload::Input(t)) && t@ == data),
        code == seq!['m'] ==> (r matches Ok(crate::versions::v3::EventPayload::Marker(t)) && t@ == data),
        code.len() > 0 && code != seq!['o'] && code != seq!['i'] && code != seq!['m'] && code != seq![
            'r',
        ] && code != seq!['x'] ==> (r matches Ok(
            crate::versions::v3::EventPayload::Unknown { code: c, data: d },
        ) && c@ == code && d@ == data),
{
    assert(seq!['o'][0] == 'o');
    assert(seq!['i'][0] == 'i');
    assert(seq!['m'][0] == 'm');
    assert(seq!['r'][0] == 'r');
    assert(seq!['x'][0] == 'x');
}

/// A v2 event whose data is the JSON string `text` keeps that text exactly:
/// `o`, `i` and `m` type it as output, input and marker text with every
/// character kept (nothing trimmed), and a code other than `o`, `i`, `m` and
/// `r` is kept whole with its JSON data.
pub proof fn law_v2_event_text_is_kept(
    code: Seq<char>,
    text: Seq<char>,
    data: serde_json::Value,
    r: Result<crate::versions::v2::EventPayload, ParseError>,
)
    requires
        crate::versions::v2::payload_outcome(code, Some(text), data, r),
    ensures
        code == seq!['o'] ==> (r matches Ok(crate::versions::v2::EventPayload::Output(t)) && t@ == text),
        code == seq!['i'] ==> (r matches Ok(crate::versions::v2::EventPayload::Input(t)) && t@ == text),
        code == seq!['m'] ==> (r matches Ok(crate::versions::v2::EventPayload::Marker(t)) && t@ == text),
        code.len() > 0 && code != seq!['o'] && code != seq!['i'] && code != seq!['m'] && code != seq![
            'r',
        ] ==> (r matches Ok(crate::versions::v2::EventPayload::Unknown { code: c, data: d }) && c@
            == code && d == data),
{
    assert(seq!['o'][0] == 'o');
    assert(seq!['i'][0] == 'i');
    assert(seq!['m'][0] == 'm');
    assert(seq!['r'][0] == 'r');
    assert(seq!['x'][0] == 'x');
}

/// Typing the text of a v2 `o`, `i` or `m` event keeps every character of it.
pub proof fn law_v2_text_payload_is_kept(
    kind: crate::versions::v2::EventCode,
    text: Seq<char>,
    r: Result<crate::versions::v2::EventPayload, ParseError>,
)
    requires
        crate::versions::v2::text_payload_outcome(kind, Ok(text), r),
    ensures
        kind == crate::versions::v2::EventCode::Output ==> (r matches Ok(
            crate::versions::v2::EventPayload::Output(t),
        ) && t@ == text),
        kind == crate::versions::v2::EventCode::Input ==> (r matches Ok(
            crate::versions::v2::EventPayload::Input(t),
        ) && t@ == text),
        kind == crate::versions::v2::EventCode::Marker ==> (r matches Ok(
            crate::versions::v2::EventPayload::Marker(t),
        ) && t@ == text),
{
}

/// The texts of `pieces` joined with a `:` between each two.
pub open spec fn join_colons(pieces: Seq<Seq<char>>) -> Seq<char>
    decreases pieces.len(),
{
    if pieces.len() == 0 {
        Seq::empty()
    } else if pieces.len() == 1 {
        pieces[0]
    } else {
        join_colons(pieces.drop_last()).push(':') + pieces.last()
    }
}

/// Text without the separator extends the last piece.
proof fn lemma_split_on_append_plain(x: Seq<char>, b: Seq<char>, sep: char)
    requires
        forall|i: int| 0 <= i < b.len() ==> #[trigger] b[i] != sep,
    ensures
        split_on(x + b, sep) == split_on(x, sep).update(
            split_on(x, sep).len() - 1,
            split_on(x, sep).last() + b,
        ),
    decreases b.len(),
{
    crate::versions::common::lemma_split_on_nonempty(x, sep);
    let sx = split_on(x, sep);
    if b.len() == 0 {
        assert(x + b =~= x);
        assert(sx.last() + b =~= sx.last());
        assert(sx.update(sx.len() - 1, sx.last()) =~= sx);
    } else {
        let b0 = b.drop_last();
        assert forall|i: int| 0 <= i < b0.len() implies #[trigger] b0[i] != sep by {
            assert(b0[i] == b[i]);
        }
        lemma_split_on_append_plain(x, b0, sep);
        assert((x + b).drop_last() =~= x + b0);
        assert((x + b).last() == b.last());
        assert(b.last() != sep);
        assert((sx.last() + b0).push(b.last()) =~= sx.last() + b);
        assert(split_on(x + b, sep) =~= sx.update(sx.len() - 1, sx.last() + b));
    }
}

/// Splitting pieces joined with `:` gives the pieces back, where none holds
/// a `:`.
proof fn lemma_split_join(pieces: Seq<Seq<char>>)
    requires
        pieces.len() >= 1,
        forall|k: int, i: int|
            0 <= k < pieces.len() && 0 <= i < pieces[k].len() ==> #[trigger] pieces[k][i] != ':',
    ensures
        split_on(join_colons(pieces), ':') == pieces,
    decreases pieces.len(),
{
    let last = pieces.last();
    assert forall|i: int| 0 <= i < last.len() implies #[trigger] last[i] != ':' by {
        assert(last[i] == pieces[pieces.len() - 1][i]);
    }
    if pieces.len() == 1 {
        let e = Seq::<char>::empty();
        lemma_split_on_append_plain(e, last, ':');
        assert(e + last =~= last);
        assert(split_on(e, ':') == seq![e]);
        assert(e + last =~= pieces[0]);
        assert(split_on(join_colons(pieces), ':') =~= pieces);
    } else {
        let init = pieces.drop_last();
        assert forall|k: int, i: int|
            0 <= k < init.len() && 0 <= i < init[k].len() implies #[trigger] init[k][i] != ':' by {
            assert(init[k] == pieces[k]);
        }
        lemma_split_join(init);
        let j = join_colons(init).push(':');
        assert(j.drop_last() =~= join_colons(init));
        assert(split_on(j, ':') == init.push(Seq::<char>::empty()));
        lemma_split_on_append_plain(j, last, ':');
        assert(Seq::<char>::empty() + last =~= last);
        assert(split_on(j + last, ':') =~= pieces);
    }
}

/// Joining the `#rrggbb` texts of any 8 or 16 colours with `:` gives a
/// palette that parses to exactly those colours, in order; any other number
/// of valid colours is rejected for its count.
pub proof fn law_palette_roundtrip(
    colours: Seq<(u8, u8, u8)>,
    r: Result<Vec<Rgb>, crate::versions::common::PaletteError>,
)
    requires
        colours.len() >= 1,
        palette_outcome(
            join_colons(colours.map_values(|c: (u8, u8, u8)| hex_colour(c.0, c.1, c.2))),
            r,
        ),
    ensures
        colours.len() == 8 || colours.len() == 16 ==> (r matches Ok(v) && v.len() == colours.len()
            && forall|j: int| 0 <= j < colours.len() ==> #[trigger] v@[j]@ == colours[j]),
        colours.len() != 8 && colours.len() != 16 ==> (r matches Err(
            crate::versions::common::PaletteError::WrongLength { found },
        ) && found == colours.len()),
{
    let pieces = colours.map_values(|c: (u8, u8, u8)| hex_colour(c.0, c.1, c.2));
    assert forall|k: int, i: int|
        0 <= k < pieces.len() && 0 <= i < pieces[k].len() implies #[trigger] pieces[k][i] != ':' by {
        let c = colours[k];
        assert(pieces[k] == hex_colour(c.0, c.1, c.2));
        if i > 0 {
            law_rgb_roundtrip(c.0, c.1, c.2);
            lemma_hex_char((c.0 / 16) as nat);
            lemma_hex_char((c.0 % 16) as nat);
            lemma_hex_char((c.1 / 16) as nat);
            lemma_hex_char((c.1 % 16) as nat);
            lemma_hex_char((c.2 / 16) as nat);
            lemma_hex_char((c.2 % 16) as nat);
            assert(is_hex_digit(pieces[k][i] as u8));
        }
    }
    lemma_split_join(pieces);
    let text = join_colons(pieces);
    assert forall|j: int| 0 <= j < pieces.len() implies rgb_parses(#[trigger] pieces[j])
        && rgb_channels(pieces[j]) == colours[j] by {
        let c = colours[j];
        law_rgb_roundtrip(c.0, c.1, c.2);
    }
    match r {
        Ok(v) => {
            assert forall|j: int| 0 <= j < colours.len() implies #[trigger] v@[j]@ == colours[j] by {
                assert(rgb_channels(pieces[j]) == colours[j]);
            }
        },
        Err(crate::versions::common::PaletteError::Color { index, source }) => {
            assert(rgb_parses(pieces[index as int]));
        },
        Err(crate::versions::common::PaletteError::WrongLength { found }) => {},
    }
}

/// Whether an environment entry carries a value.
pub open spec fn has_value() -> spec_fn((Seq<char>, Option<Seq<char>>)) -> bool {
    |e: (Seq<char>, Option<Seq<char>>)| e.1 is Some
}

/// The entries of `entries` that carry a value, each as its name and value,
/// in order.
pub open spec fn valued_entries(entries: Seq<(Seq<char>, Option<Seq<char>>)>) -> Seq<
    (Seq<char>, Seq<char>),
> {
    entries.filter(has_value()).map_values(
        |e: (Seq<char>, Option<Seq<char>>)| (e.0, e.1->Some_0),
    )
}

/// Dropping null environment values keeps every other variable: the kept
/// entries are exactly those with a value, in their order, so every entry
/// with a value is among them and there are as many as there are values.
pub proof fn law_null_values_are_the_only_ones_dropped(entries: Seq<(Seq<char>, Option<Seq<char>>)>)
    ensures
        present_entries(entries) == valued_entries(entries),
        present_entries(entries).len() == entries.filter(has_value()).len(),
        forall|i: int|
            0 <= i < entries.len() && (#[trigger] entries[i]).1 is Some ==> present_entries(
                entries,
            ).contains((entries[i].0, entries[i].1->Some_0)),
    decreases entries.len(),
{
    reveal(Seq::filter);
    if entries.len() > 0 {
        let init = entries.drop_last();
        law_null_values_are_the_only_ones_dropped(init);
        let f = init.filter(has_value());
        let g = entries.filter(has_value());
        assert(g == (if entries.last().1 is Some {
            f.push(entries.last())
        } else {
            f
        }));
        let p = present_entries(init);
        if entries.last().1 is Some {
            assert(valued_entries(entries) =~= valued_entries(init).push(
                (entries.last().0, entries.last().1->Some_0),
            ));
        }
        assert(present_entries(entries) =~= valued_entries(entries));
        assert forall|i: int|
            0 <= i < entries.len() && (#[trigger] entries[i]).1 is Some implies present_entries(
                entries,
            ).contains((entries[i].0, entries[i].1->Some_0)) by {
            let q = present_entries(entries);
            if i < entries.len() - 1 {
                assert(init[i] == entries[i]);
                let k = choose|k: int| 0 <= k < p.len() && p[k] == (init[i].0, init[i].1->Some_0);
                assert(q[k] == p[k]);
            } else {
                assert(q[q.len() - 1] == (entries[i].0, entries[i].1->Some_0));
            }
        }
    } else {
        assert(valued_entries(entries) =~= Seq::<(Seq<char>, Seq<char>)>::empty());
    }
}

/// A v3 `r` event whose data is `COLSxROWS` in decimal resizes to exactly
/// those dimensions, and an `x` event whose data is the numeral of `n`, with
/// any whitespace around it, exits with status `n`.
pub proof fn law_v3_resize_and_exit_events(
    cols: u16,
    rows: u16,
    n: i32,
    left: Seq<char>,
    right: Seq<char>,
    resized: Result<crate::versions::v3::EventPayload, ParseError>,
    exited: Result<crate::versions::v3::EventPayload, ParseError>,
)
    requires
        forall|j: int| 0 <= j < left.len() ==> char_is_whitespace(#[trigger] left[j]),
        forall|j: int| 0 <= j < right.len() ==> char_is_whitespace(#[trigger] right[j]),
        crate::versions::v3::payload_outcome(
            seq!['r'],
            decimal_numeral(cols as nat) + seq!['x'] + decimal_numeral(rows as nat),
            resized,
        ),
        crate::versions::v3::payload_outcome(seq!['x'], left + signed_numeral(n as int) + right, exited),
    ensures
        resized == Ok::<crate::versions::v3::EventPayload, ParseError>(
            crate::versions::v3::EventPayload::Resize(Resize { cols, rows }),
        ),
        exited matches Ok(crate::versions::v3::EventPayload::Exit(status)) && status@ == n,
{
    law_resize_payload_roundtrip(cols, rows);
    law_exit_status_roundtrip(n, left, right);
    assert(seq!['o'][0] == 'o');
    assert(seq!['i'][0] == 'i');
    assert(seq!['m'][0] == 'm');
    assert(seq!['r'][0] == 'r');
    assert(seq!['x'][0] == 'x');
}

/// A v2 `r` event whose JSON text is `COLSxROWS` in decimal resizes to
/// exactly those dimensions.
pub proof fn law_v2_resize_event(
    cols: u16,
    rows: u16,
    data: serde_json::Value,
    r: Result<crate::versions::v2::EventPayload, ParseError>,
)
    requires
        crate::versions::v2::payload_outcome(
            seq!['r'],
            Some(decimal_numeral(cols as nat) + seq!['x'] + decimal_numeral(rows as nat)),
            data,
            r,
        ),
    ensures
        r == Ok::<crate::versions::v2::EventPayload, ParseError>(
            crate::versions::v2::EventPayload::Resize(Resize { cols, rows }),
        ),
{
    law_resize_payload_roundtrip(cols, rows);
    assert(seq!['o'][0] == 'o');
    assert(seq!['i'][0] == 'i');
    assert(seq!['m'][0] == 'm');
    assert(seq!['r'][0] == 'r');
}

/// The hexadecimal digit whose value is `d` (for `d < 16`), in uppercase
/// where `upper` is set.
pub open spec fn hex_char_in_case(d: nat, upper: bool) -> char {
    if upper {
        hex_char_upper(d)
    } else {
        hex_char(d)
    }
}

/// The `#rrggbb` text of the colour with channels `r`, `g` and `b`, each
/// digit in uppercase where `upper` says so.
pub open spec fn hex_colour_in_case(r: u8, g: u8, b: u8, upper: Seq<bool>) -> Seq<char> {
    seq![
        '#',
        hex_char_in_case((r / 16) as nat, upper[0]),
        hex_char_in_case((r % 16) as nat, upper[1]),
        hex_char_in_case((g / 16) as nat, upper[2]),
        hex_char_in_case((g % 16) as nat, upper[3]),
        hex_char_in_case((b / 16) as nat, upper[4]),
        hex_char_in_case((b % 16) as nat, upper[5]),
    ]
}

proof fn lemma_hex_char_in_case(d: nat, upper: bool)
    requires
        d < 16,
    ensures
        is_hex_digit(hex_char_in_case(d, upper) as u8),
        hex_digit_value(hex_char_in_case(d, upper) as u8) == d,
        '\0' <= hex_char_in_case(d, upper) <= '\u{7f}',
{
    lemma_hex_char(d);
    lemma_hex_char_upper(d);
}

proof fn lemma_hex_pair_in_case(v: u8, hi: bool, lo: bool)
    ensures
        hex_pair(hex_char_in_case((v / 16) as nat, hi) as u8, hex_char_in_case((v % 16) as nat, lo) as u8)
            == v,
{
    lemma_hex_char_in_case((v / 16) as nat, hi);
    lemma_hex_char_in_case((v % 16) as nat, lo);
}

/// The `#rrggbb` text of any colour, with its digits in any mix of upper and
/// lower case, parses back to that colour.
pub proof fn law_rgb_roundtrip_any_case(r: u8, g: u8, b: u8, upper: Seq<bool>)
    requires
        upper.len() == 6,
    ensures
        rgb_parses(hex_colour_in_case(r, g, b, upper)),
        rgb_channels(hex_colour_in_case(r, g, b, upper)) == (r, g, b),
        forall|res: Result<Rgb, crate::versions::common::ColorError>|
            rgb_parse_outcome(hex_colour_in_case(r, g, b, upper), res) ==> (res matches Ok(c) && c@
                == (r, g, b)),
{
    let s = hex_colour_in_case(r, g, b, upper);
    lemma_hex_char_in_case((r / 16) as nat, upper[0]);
    lemma_hex_char_in_case((r % 16) as nat, upper[1]);
    lemma_hex_char_in_case((g / 16) as nat, upper[2]);
    lemma_hex_char_in_case((g % 16) as nat, upper[3]);
    lemma_hex_char_in_case((b / 16) as nat, upper[4]);
    lemma_hex_char_in_case((b % 16) as nat, upper[5]);
    lemma_colour_text(s);
    lemma_hex_pair_in_case(r, upper[0], upper[1]);
    lemma_hex_pair_in_case(g, upper[2], upper[3]);
    lemma_hex_pair_in_case(b, upper[4], upper[5]);
}

} // verus!
