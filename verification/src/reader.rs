//! Line-level logic for the newline-delimited formats (v2 and v3): which line
//! holds the header, which lines are skipped, and the version check.
use vstd::prelude::*;

use crate::error::ParseError;
use crate::text::{char_is_whitespace, chars_of, skip_whitespace, trim, trim_end, trim_start};

verus! {

/// How a line of a newline-delimited recording is treated.
#[derive(Debug, Clone, Copy, PartialEq, Eq, Structural)]
pub enum LineKind {
    /// The line is empty or all whitespace.
    Blank,
    /// The line's first non-whitespace character is `#` and comments are skipped.
    Comment,
    /// Any other line.
    Content,
}

/// How the line `line` is treated, where `skip_comments` says whether
/// `#`-prefixed lines are comments.
pub open spec fn line_kind(line: Seq<char>, skip_comments: bool) -> LineKind {
    let t = trim(line);
    if t.len() == 0 {
        LineKind::Blank
    } else if skip_comments && t[0] == '#' {
        LineKind::Comment
    } else {
        LineKind::Content
    }
}

proof fn lemma_trim_end_keeps_first(t: Seq<char>)
    requires
        t.len() > 0,
        !char_is_whitespace(t[0]),
    ensures
        trim_end(t).len() > 0,
        trim_end(t)[0] == t[0],
    decreases t.len(),
{
    if char_is_whitespace(t.last()) {
        assert(t.len() >= 2);
        lemma_trim_end_keeps_first(t.drop_last());
    }
}

/// Classify a line: blank lines are skipped everywhere, and `#`-prefixed lines
/// are comments when `skip_comments` is set.
pub fn classify_line(line: &str, skip_comments: bool) -> (k: LineKind)
    ensures
        k == line_kind(line@, skip_comments),
{
    let v = chars_of(line);
    let first = skip_whitespace(&v, 0);
    assert(v@.subrange(0, v.len() as int) =~= v@);
    if first == v.len() {
        assert(v@.subrange(first as int, v.len() as int) =~= Seq::<char>::empty());
        return LineKind::Blank;
    }
    proof {
        let t = trim_start(v@);
        assert(t[0] == v@[first as int]);
        lemma_trim_end_keeps_first(t);
    }
    if skip_comments && v[first] == '#' {
        LineKind::Comment
    } else {
        LineKind::Content
    }
}

/// Check that the declared version `found` is the `expected` one.
pub fn check_version(expected: u8, found: u8) -> (r: Result<(), ParseError>)
    ensures
        found == expected ==> r is Ok,
        found != expected ==> r == Err::<(), ParseError>(ParseError::VersionMismatch { expected, found }),
{
    if found != expected {
        Err(ParseError::VersionMismatch { expected, found })
    } else {
        Ok(())
    }
}


/// Where a reader of a newline-delimited recording stands.
#[derive(Debug, Clone, Copy, PartialEq, Eq, Structural)]
pub enum ReaderPhase {
    /// No header has been read yet.
    AwaitingHeader,
    /// The header has been read; the lines that follow hold events.
    Events,
}

/// What a reader does with a line it has read.
#[derive(Debug, Clone, Copy, PartialEq, Eq, Structural)]
pub enum LineAction {
    /// The line is passed over.
    Skip,
    /// The line is the header.
    Header,
    /// The line holds an event.
    Event,
}

/// What a reader in `phase` does with the line `line`: before the header,
/// blank lines are passed over and the first other line is the header; after
/// it, every line that is neither blank nor a skipped comment is an event.
pub open spec fn line_action(phase: ReaderPhase, line: Seq<char>, skip_comments: bool) -> LineAction {
    match phase {
        ReaderPhase::AwaitingHeader => if trim(line).len() == 0 {
            LineAction::Skip
        } else {
            LineAction::Header
        },
        ReaderPhase::Events => if line_kind(line, skip_comments) == LineKind::Content {
            LineAction::Event
        } else {
            LineAction::Skip
        },
    }
}

/// The phase a reader in `phase` is in after taking `action`.
pub open spec fn phase_after_action(phase: ReaderPhase, action: LineAction) -> ReaderPhase {
    if action == LineAction::Header {
        ReaderPhase::Events
    } else {
        phase
    }
}

/// Decide what a reader in `phase` does with the line it has just read.
pub fn next_action(phase: ReaderPhase, line: &str, skip_comments: bool) -> (a: LineAction)
    ensures
        a == line_action(phase, line@, skip_comments),
{
    match phase {
        ReaderPhase::AwaitingHeader => {
            if classify_line(line, false) == LineKind::Blank {
                LineAction::Skip
            } else {
                LineAction::Header
            }
        },
        ReaderPhase::Events => {
            if classify_line(line, skip_comments) == LineKind::Content {
                LineAction::Event
            } else {
                LineAction::Skip
            }
        },
    }
}

/// The phase a reader in `phase` moves to once it has taken `action`: taking
/// the header starts the events.
pub fn next_phase(phase: ReaderPhase, action: LineAction) -> (p: ReaderPhase)
    ensures
        p == phase_after_action(phase, action),
{
    match action {
        LineAction::Header => ReaderPhase::Events,
        _ => phase,
    }
}

/// What the input ending gives a reader in `phase`: before the header it is
/// missing its header; after it, the events are complete.
pub open spec fn end_of_input_outcome(phase: ReaderPhase) -> Result<(), ParseError> {
    match phase {
        ReaderPhase::AwaitingHeader => Err(ParseError::MissingHeader),
        ReaderPhase::Events => Ok(()),
    }
}

/// Decide what the input ending means to a reader in `phase`.
pub fn end_of_input(phase: ReaderPhase) -> (r: Result<(), ParseError>)
    ensures
        r == end_of_input_outcome(phase),
{
    match phase {
        ReaderPhase::AwaitingHeader => Err(ParseError::MissingHeader),
        ReaderPhase::Events => Ok(()),
    }
}

/// The phase that a reader which started before the header is in once it
/// has taken the first `n` lines of `lines`, one at a time.
pub open spec fn streamed_phase(lines: Seq<Seq<char>>, skip_comments: bool, n: int) -> ReaderPhase
    decreases n,
{
    if n <= 0 {
        ReaderPhase::AwaitingHeader
    } else {
        let p = streamed_phase(lines, skip_comments, n - 1);
        phase_after_action(p, line_action(p, lines[n - 1], skip_comments))
    }
}

/// The positions, in order, of the lines among the first `n` of `lines` that
/// a reader taking them one at a time treats as events.
pub open spec fn streamed_events(lines: Seq<Seq<char>>, skip_comments: bool, n: int) -> Seq<int>
    decreases n,
{
    if n <= 0 {
        Seq::empty()
    } else {
        let p = streamed_events(lines, skip_comments, n - 1);
        if line_action(streamed_phase(lines, skip_comments, n - 1), lines[n - 1], skip_comments)
            == LineAction::Event {
            p.push(n - 1)
        } else {
            p
        }
    }
}

/// The characters of each line.
pub open spec fn line_views(lines: Seq<String>) -> Seq<Seq<char>> {
    lines.map_values(|l: String| l@)
}

/// The position of the first line at or after `from` that is not blank, or
/// `lines.len()` if there is none.
pub open spec fn first_nonblank(lines: Seq<Seq<char>>, from: int) -> int
    decreases lines.len() - from,
{
    if from < 0 || from >= lines.len() {
        lines.len() as int
    } else if trim(lines[from]).len() > 0 {
        from
    } else {
        first_nonblank(lines, from + 1)
    }
}

/// The positions in `from..to` of the lines that hold an event, in order.
pub open spec fn event_positions(lines: Seq<Seq<char>>, skip_comments: bool, from: int, to: int) -> Seq<
    int,
>
    decreases to - from,
{
    if to <= from {
        Seq::empty()
    } else {
        let p = event_positions(lines, skip_comments, from, to - 1);
        if line_kind(lines[to - 1], skip_comments) == LineKind::Content {
            p.push(to - 1)
        } else {
            p
        }
    }
}

/// Whether `parse_event` can succeed on the line at `positions[k]`.
pub open spec fn event_succeeds<E, PE: Fn(&String) -> Result<E, ParseError>>(
    lines: Seq<String>,
    positions: Seq<int>,
    parse_event: PE,
    k: int,
) -> bool {
    exists|x: E| call_ensures(parse_event, (&lines[positions[k]],), Ok::<E, ParseError>(x))
}

/// What parsing the event lines at `positions` gives: every event in order,
/// or the first event error, or else the error that ended the input.
pub open spec fn events_outcome<E, PE: Fn(&String) -> Result<E, ParseError>>(
    lines: Seq<String>,
    positions: Seq<int>,
    parse_event: PE,
    read_error: Option<ParseError>,
    r: Result<Seq<E>, ParseError>,
) -> bool {
    match r {
        Ok(events) => {
            &&& read_error is None
            &&& events.len() == positions.len()
            &&& forall|k: int|
                0 <= k < events.len() ==> call_ensures(
                    parse_event,
                    (&lines[positions[k]],),
                    Ok::<E, ParseError>(#[trigger] events[k]),
                )
        },
        Err(e) => {
            ||| exists|k: int|
                #![trigger positions[k]]
                0 <= k < positions.len() && (forall|j: int|
                    0 <= j < k ==> event_succeeds(lines, positions, parse_event, j))
                    && call_ensures(parse_event, (&lines[positions[k]],), Err::<E, ParseError>(e))
            ||| read_error == Some(e) && forall|j: int|
                0 <= j < positions.len() ==> event_succeeds(lines, positions, parse_event, j)
        },
    }
}

/// What parsing a newline-delimited recording whose lines are `lines` gives.
///
/// The header is the first non-blank line; `parse_header` reads it and
/// `header_version` gives its declared version, which must be `expected`.
/// Every later line that is neither blank nor (where `skip_comments` is set)
/// a comment holds an event, which `parse_event` reads. `read_error` is the
/// error, if any, that ended the input after `lines`.
pub open spec fn ndjson_outcome<
    H,
    E,
    PH: Fn(&String) -> Result<H, ParseError>,
    HV: Fn(&H) -> u8,
    PE: Fn(&String) -> Result<E, ParseError>,
>(
    lines: Seq<String>,
    read_error: Option<ParseError>,
    expected: u8,
    skip_comments: bool,
    parse_header: PH,
    header_version: HV,
    parse_event: PE,
    r: Result<(H, Vec<E>), ParseError>,
) -> bool {
    let views = line_views(lines);
    let hi = first_nonblank(views, 0);
    if hi >= views.len() {
        match read_error {
            Some(e) => r == Err::<(H, Vec<E>), ParseError>(e),
            None => r == Err::<(H, Vec<E>), ParseError>(ParseError::MissingHeader),
        }
    } else {
        exists|hr: Result<H, ParseError>|
            #[trigger] call_ensures(parse_header, (&lines[hi],), hr) && match hr {
                Err(e) => r == Err::<(H, Vec<E>), ParseError>(e),
                Ok(h) => exists|found: u8|
                    #[trigger] call_ensures(header_version, (&h,), found) && if found != expected {
                        r == Err::<(H, Vec<E>), ParseError>(ParseError::VersionMismatch { expected, found })
                    } else {
                        let positions = event_positions(views, skip_comments, hi + 1, views.len() as int);
                        match r {
                            Ok((h2, events)) => h2 == h && events_outcome(
                                lines,
                                positions,
                                parse_event,
                                read_error,
                                Ok(events@),
                            ),
                            Err(e) => events_outcome(lines, positions, parse_event, read_error, Err(e)),
                        }
                    },
            }
    }
}

/// Blank lines before position `i` do not change where the first non-blank
/// line is found.
pub proof fn lemma_first_nonblank_skip(lines: Seq<Seq<char>>, i: int)
    requires
        0 <= i <= lines.len(),
        forall|j: int| 0 <= j < i ==> trim(#[trigger] lines[j]).len() == 0,
    ensures
        first_nonblank(lines, 0) == first_nonblank(lines, i),
    decreases i,
{
    if i > 0 {
        lemma_first_nonblank_skip(lines, i - 1);
    }
}

proof fn lemma_event_positions_prefix(lines: Seq<Seq<char>>, skip: bool, from: int, to: int, to2: int)
    requires
        from <= to <= to2,
    ensures
        event_positions(lines, skip, from, to).len() <= event_positions(lines, skip, from, to2).len(),
        forall|k: int|
            0 <= k < event_positions(lines, skip, from, to).len() ==> #[trigger] event_positions(
                lines,
                skip,
                from,
                to2,
            )[k] == event_positions(lines, skip, from, to)[k],
    decreases to2 - to,
{
    if to < to2 {
        lemma_event_positions_prefix(lines, skip, from, to, to2 - 1);
    }
}

/// The position of the header line: the first line that is not blank, or
/// `lines.len()` where there is none.
pub fn find_header_line(lines: &Vec<String>) -> (i: usize)
    ensures
        i == first_nonblank(line_views(lines@), 0),
        i <= lines.len(),
{
    let ghost views = line_views(lines@);
    let n = lines.len();
    let mut i: usize = 0;
    loop
        invariant
            n == lines.len(),
            views == line_views(lines@),
            i <= n,
            forall|j: int| 0 <= j < i ==> trim(#[trigger] views[j]).len() == 0,
        ensures
            i <= n,
            forall|j: int| 0 <= j < i ==> trim(#[trigger] views[j]).len() == 0,
            i < n ==> trim(views[i as int]).len() > 0,
        decreases n - i,
    {
        if i == n {
            break;
        }
        if classify_line(lines[i].as_str(), false) != LineKind::Blank {
            break;
        }
        i = i + 1;
    }
    proof {
        lemma_first_nonblank_skip(views, i as int);
    }
    i
}

/// Parse a newline-delimited recording (the shared shape of v2 and v3): a
/// header object on the first non-blank line followed by one event per line.
///
/// The caller supplies the lines read, the error that ended reading (if any),
/// and the per-version specifics: the expected version, whether `#`-prefixed
/// comment lines are skipped, how to read the header and its `version` field,
/// and how to parse a single event line. Reading stops at the first error.
pub fn parse_ndjson<H, E, PH, HV, PE>(
    lines: &Vec<String>,
    read_error: Option<ParseError>,
    expected: u8,
    skip_comments: bool,
    parse_header: PH,
    header_version: HV,
    parse_event: PE,
) -> (r: Result<(H, Vec<E>), ParseError>) where
    PH: Fn(&String) -> Result<H, ParseError>,
    HV: Fn(&H) -> u8,
    PE: Fn(&String) -> Result<E, ParseError>,

    requires
        forall|l: &String| #[trigger] call_requires(parse_header, (l,)),
        forall|h: &H| #[trigger] call_requires(header_version, (h,)),
        forall|l: &String| #[trigger] call_requires(parse_event, (l,)),
    ensures
        ndjson_outcome(
            lines@,
            read_error,
            expected,
            skip_comments,
            parse_header,
            header_version,
            parse_event,
            r,
        ),
{
    let ghost views = line_views(lines@);
    let n = lines.len();
    let i = find_header_line(lines);
    if i == n {
        return match read_error {
            Some(e) => Err(e),
            None => Err(ParseError::MissingHeader),
        };
    }
    let hi = i;
    let hr = parse_header(&lines[hi]);
    let ghost header_result = hr;
    assert(call_ensures(parse_header, (&lines@[hi as int],), header_result));
    let h = match hr {
        Err(e) => {
            return Err(e);
        },
        Ok(h) => h,
    };
    let found = header_version(&h);
    if found != expected {
        assert(call_ensures(header_version, (&h,), found));
        return Err(ParseError::VersionMismatch { expected, found });
    }
    assert(call_ensures(header_version, (&h,), found));
    let mut events: Vec<E> = Vec::new();
    let mut j: usize = hi + 1;
    while j < n
        invariant
            n == lines.len(),
            views == line_views(lines@),
            hi < j <= n,
            hi == first_nonblank(views, 0),
            call_ensures(parse_header, (&lines@[hi as int],), header_result),
            header_result == Ok::<H, ParseError>(h),
            call_ensures(header_version, (&h,), found),
            found == expected,
            forall|l: &String| #[trigger] call_requires(parse_event, (l,)),
            events@.len() == event_positions(views, skip_comments, hi + 1, j as int).len(),
            forall|k: int|
                0 <= k < events@.len() ==> call_ensures(
                    parse_event,
                    (&lines@[event_positions(views, skip_comments, hi + 1, j as int)[k]],),
                    Ok::<E, ParseError>(#[trigger] events@[k]),
                ),
        decreases n - j,
    {
        let ghost before = event_positions(views, skip_comments, hi + 1, j as int);
        if classify_line(lines[j].as_str(), skip_comments) == LineKind::Content {
            let ghost all = event_positions(views, skip_comments, hi + 1, n as int);
            proof {
                lemma_event_positions_prefix(views, skip_comments, hi + 1, j + 1, n as int);
                assert(event_positions(views, skip_comments, hi + 1, j + 1) == before.push(j as int));
            }
            match parse_event(&lines[j]) {
                Ok(e) => {
                    events.push(e);
                },
                Err(err) => {
                    proof {
                        let k = events@.len() as int;
                        assert(all[k] == j);
                        assert forall|m: int| 0 <= m < k implies event_succeeds(
                            lines@,
                            all,
                            parse_event,
                            m,
                        ) by {
                            assert(all[m] == before[m]);
                            assert(call_ensures(
                                parse_event,
                                (&lines@[all[m]],),
                                Ok::<E, ParseError>(events@[m]),
                            ));
                        }
                        assert(call_ensures(parse_event, (&lines@[all[k]],), Err::<E, ParseError>(err)));
                        assert(events_outcome(lines@, all, parse_event, read_error, Err(err)));
                        assert(header_result->Ok_0 == h);
                        assert(call_ensures(header_version, (&header_result->Ok_0,), found));
                    }
                    return Err(err);
                },
            }
        }
        j = j + 1;
    }
    let ghost all = event_positions(views, skip_comments, hi + 1, n as int);
    match read_error {
        Some(e) => {
            proof {
                assert forall|m: int| 0 <= m < all.len() implies event_succeeds(
                    lines@,
                    all,
                    parse_event,
                    m,
                ) by {
                    assert(call_ensures(parse_event, (&lines@[all[m]],), Ok::<E, ParseError>(events@[m])));
                }
            }
            return Err(e);
        },
        None => {},
    }
    assert(call_ensures(header_version, (&h,), found));
    Ok((h, events))
}

} // verus!
