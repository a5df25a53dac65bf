//! Character-level helpers shared by the payload parsers: whitespace
//! trimming, decimal integers and debug quoting.
use vstd::prelude::*;

verus! {

/// Whether `c` has the Unicode `White_Space` property: U+0009 to U+000D,
/// U+0020, U+0085, U+00A0, U+1680, U+2000 to U+200A, U+2028, U+2029, U+202F,
/// U+205F and U+3000.
pub open spec fn char_is_whitespace(c: char) -> bool {
    let n = c as u32;
    ||| 0x09 <= n <= 0x0d
    ||| n == 0x20
    ||| n == 0x85
    ||| n == 0xa0
    ||| n == 0x1680
    ||| 0x2000 <= n <= 0x200a
    ||| n == 0x2028
    ||| n == 0x2029
    ||| n == 0x202f
    ||| n == 0x205f
    ||| n == 0x3000
}

/// Whether `c` is whitespace (as `char::is_whitespace` decides).
pub fn is_whitespace(c: char) -> (r: bool)
    ensures
        r == char_is_whitespace(c),
{
    let n = c as u32;
    (0x09 <= n && n <= 0x0d) || n == 0x20 || n == 0x85 || n == 0xa0 || n == 0x1680 || (0x2000 <= n
        && n <= 0x200a) || n == 0x2028 || n == 0x2029 || n == 0x202f || n == 0x205f || n == 0x3000
}

/// `s` without its leading whitespace (as `str::trim_start` does).
pub open spec fn trim_start(s: Seq<char>) -> Seq<char>
    decreases s.len(),
{
    if s.len() > 0 && char_is_whitespace(s[0]) {
        trim_start(s.drop_first())
    } else {
        s
    }
}

/// `s` without its trailing whitespace (as `str::trim_end` does).
pub open spec fn trim_end(s: Seq<char>) -> Seq<char>
    decreases s.len(),
{
    if s.len() > 0 && char_is_whitespace(s.last()) {
        trim_end(s.drop_last())
    } else {
        s
    }
}

/// `s` without leading and trailing whitespace (as `str::trim` does).
pub open spec fn trim(s: Seq<char>) -> Seq<char> {
    trim_end(trim_start(s))
}

/// The characters of `s`, in order.
pub fn chars_of(s: &str) -> (v: Vec<char>)
    ensures
        v@ == s@,
{
    let mut v: Vec<char> = Vec::new();
    for c in it: s.chars()
        invariant
            v@ == it.seq().take(it.index() as int),
            it.seq() == s@,
    {
        v.push(c);
    }
    v
}


/// Whether `c` is an ASCII decimal digit.
pub open spec fn is_ascii_digit(c: char) -> bool {
    '0' <= c && c <= '9'
}

/// Whether every character of `d` is an ASCII decimal digit.
pub open spec fn all_digits(d: Seq<char>) -> bool {
    forall|i: int| 0 <= i < d.len() ==> is_ascii_digit(#[trigger] d[i])
}

/// The value of the ASCII decimal digit `c`.
pub open spec fn digit_value(c: char) -> nat {
    (c as int - '0' as int) as nat
}

/// The value of the decimal numeral `d` (most significant digit first).
pub open spec fn decimal_value(d: Seq<char>) -> nat
    decreases d.len(),
{
    if d.len() == 0 {
        0
    } else {
        decimal_value(d.drop_last()) * 10 + digit_value(d.last())
    }
}

/// `x`, or `cap` where `x` exceeds it.
pub open spec fn capped(x: nat, cap: nat) -> nat {
    if x < cap {
        x
    } else {
        cap
    }
}

/// The digits of an unsigned numeral: `s` without one leading `+`.
pub open spec fn unsigned_digits(s: Seq<char>) -> Seq<char> {
    if s.len() > 0 && s[0] == '+' {
        s.drop_first()
    } else {
        s
    }
}

/// What `u16::from_str` gives on `s`: an optional `+`, then at least one
/// decimal digit and nothing else, with a value that fits.
pub open spec fn parse_u16_spec(s: Seq<char>) -> Option<u16> {
    let d = unsigned_digits(s);
    if d.len() > 0 && all_digits(d) && decimal_value(d) <= u16::MAX {
        Some(decimal_value(d) as u16)
    } else {
        None
    }
}

/// What `i32::from_str` gives on `s`: an optional `+` or `-`, then at least
/// one decimal digit and nothing else, with a value that fits.
pub open spec fn parse_i32_spec(s: Seq<char>) -> Option<i32> {
    if s.len() > 0 && s[0] == '-' {
        let d = s.drop_first();
        if d.len() > 0 && all_digits(d) && decimal_value(d) <= 0x8000_0000 {
            Some((0 - decimal_value(d)) as i32)
        } else {
            None
        }
    } else {
        let d = unsigned_digits(s);
        if d.len() > 0 && all_digits(d) && decimal_value(d) <= i32::MAX {
            Some(decimal_value(d) as i32)
        } else {
            None
        }
    }
}

proof fn lemma_capped_step(x: nat, cap: nat, d: nat)
    requires
        d < 10,
    ensures
        capped(capped(x, cap) * 10 + d, cap) == capped(x * 10 + d, cap),
{
}

/// The value of the decimal numeral `v[start..end]`, capped at `cap`, or
/// `None` where that range is empty or holds a character that is not a digit.
fn capped_decimal(v: &Vec<char>, start: usize, end: usize, cap: u64) -> (r: Option<u64>)
    requires
        start <= end <= v.len(),
        cap <= 0x1_0000_0000_0000,
    ensures
        ({
            let d = v@.subrange(start as int, end as int);
            match r {
                None => !(d.len() > 0 && all_digits(d)),
                Some(x) => d.len() > 0 && all_digits(d) && x == capped(decimal_value(d), cap as nat),
            }
        }),
{
    if start == end {
        return None;
    }
    let mut acc: u64 = 0;
    let mut i: usize = start;
    while i < end
        invariant
            start <= i <= end <= v.len(),
            cap <= 0x1_0000_0000_0000,
            all_digits(v@.subrange(start as int, i as int)),
            acc == capped(decimal_value(v@.subrange(start as int, i as int)), cap as nat),
        decreases end - i,
    {
        let c = v[i];
        if !('0' <= c && c <= '9') {
            assert(v@.subrange(start as int, end as int)[i - start] == c);
            return None;
        }
        let dv: u64 = (c as u64) - ('0' as u64);
        let ghost prev = v@.subrange(start as int, i as int);
        let ghost next = v@.subrange(start as int, i + 1);
        assert(next.drop_last() =~= prev);
        proof {
            lemma_capped_step(decimal_value(prev), cap as nat, dv as nat);
        }
        let t = acc * 10 + dv;
        acc = if t < cap { t } else { cap };
        i = i + 1;
    }
    Some(acc)
}

/// `u16::from_str` on the characters `v[start..end]`.
pub fn parse_u16_chars(v: &Vec<char>, start: usize, end: usize) -> (r: Option<u16>)
    requires
        start <= end <= v.len(),
    ensures
        r == parse_u16_spec(v@.subrange(start as int, end as int)),
{
    let ghost s = v@.subrange(start as int, end as int);
    let lo = if start < end && v[start] == '+' { start + 1 } else { start };
    assert(unsigned_digits(s) =~= v@.subrange(lo as int, end as int));
    match capped_decimal(v, lo, end, 0x1_0000) {
        None => None,
        Some(x) => {
            if x <= 0xffff {
                Some(x as u16)
            } else {
                None
            }
        },
    }
}

/// `i32::from_str` on the characters `v[start..end]`.
pub fn parse_i32_chars(v: &Vec<char>, start: usize, end: usize) -> (r: Option<i32>)
    requires
        start <= end <= v.len(),
    ensures
        r == parse_i32_spec(v@.subrange(start as int, end as int)),
{
    let ghost s = v@.subrange(start as int, end as int);
    if start < end && v[start] == '-' {
        assert(s.drop_first() =~= v@.subrange(start + 1, end as int));
        match capped_decimal(v, start + 1, end, 0x8000_0001) {
            None => None,
            Some(x) => {
                if x <= 0x8000_0000 {
                    let neg: i64 = 0 - (x as i64);
                    Some(neg as i32)
                } else {
                    None
                }
            },
        }
    } else {
        let lo = if start < end && v[start] == '+' { start + 1 } else { start };
        assert(unsigned_digits(s) =~= v@.subrange(lo as int, end as int));
        match capped_decimal(v, lo, end, 0x8000_0000) {
            None => None,
            Some(x) => {
                if x <= 0x7fff_ffff {
                    Some(x as i32)
                } else {
                    None
                }
            },
        }
    }
}


/// Leading whitespace can be dropped before trimming the start.
pub proof fn lemma_trim_start_skip(s: Seq<char>, i: int)
    requires
        0 <= i <= s.len(),
        forall|j: int| 0 <= j < i ==> char_is_whitespace(#[trigger] s[j]),
    ensures
        trim_start(s) == trim_start(s.subrange(i, s.len() as int)),
    decreases i,
{
    if i > 0 {
        assert(char_is_whitespace(s[0]));
        let t = s.drop_first();
        assert forall|j: int| 0 <= j < i - 1 implies char_is_whitespace(#[trigger] t[j]) by {
            assert(t[j] == s[j + 1]);
        }
        lemma_trim_start_skip(t, i - 1);
        assert(t.subrange(i - 1, t.len() as int) =~= s.subrange(i, s.len() as int));
    } else {
        assert(s.subrange(0, s.len() as int) =~= s);
    }
}

/// Trailing whitespace can be dropped before trimming the end.
pub proof fn lemma_trim_end_cut(s: Seq<char>, i: int)
    requires
        0 <= i <= s.len(),
        forall|j: int| i <= j < s.len() ==> char_is_whitespace(#[trigger] s[j]),
    ensures
        trim_end(s) == trim_end(s.subrange(0, i)),
    decreases s.len() - i,
{
    if i < s.len() {
        assert(char_is_whitespace(s.last()));
        let t = s.drop_last();
        lemma_trim_end_cut(t, i);
        assert(t.subrange(0, i) =~= s.subrange(0, i));
    } else {
        assert(s.subrange(0, i) =~= s);
    }
}

/// The position of the first character of `v[from..]` that is not whitespace,
/// or `v.len()` if there is none.
pub fn skip_whitespace(v: &Vec<char>, from: usize) -> (k: usize)
    requires
        from <= v.len(),
    ensures
        from <= k <= v.len(),
        trim_start(v@.subrange(from as int, v.len() as int)) == v@.subrange(k as int, v.len() as int),
        k < v.len() ==> !char_is_whitespace(v@[k as int]),
{
    let mut k = from;
    while k < v.len()
        invariant
            from <= k <= v.len(),
            forall|j: int| from <= j < k ==> char_is_whitespace(#[trigger] v@[j]),
        ensures
            from <= k <= v.len(),
            forall|j: int| from <= j < k ==> char_is_whitespace(#[trigger] v@[j]),
            k < v.len() ==> !char_is_whitespace(v@[k as int]),
        decreases v.len() - k,
    {
        if !is_whitespace(v[k]) {
            break;
        }
        k = k + 1;
    }
    let ghost s = v@.subrange(from as int, v.len() as int);
    proof {
        assert forall|j: int| 0 <= j < k - from implies char_is_whitespace(#[trigger] s[j]) by {
            assert(s[j] == v@[j + from]);
        }
        lemma_trim_start_skip(s, k - from);
        let rest = s.subrange(k - from, s.len() as int);
        assert(rest =~= v@.subrange(k as int, v.len() as int));
        if k < v.len() {
            assert(rest[0] == v@[k as int]);
        }
    }
    k
}

/// Bounds `(lo, hi)` such that `v[lo..hi]` is `v` trimmed of leading and
/// trailing whitespace.
pub fn trim_bounds(v: &Vec<char>) -> (r: (usize, usize))
    ensures
        r.0 <= r.1 <= v.len(),
        v@.subrange(r.0 as int, r.1 as int) == trim(v@),
{
    let lo = skip_whitespace(v, 0);
    assert(v@.subrange(0, v.len() as int) =~= v@);
    let mut hi = v.len();
    while hi > lo
        invariant
            lo <= hi <= v.len(),
            forall|j: int| hi <= j < v.len() ==> char_is_whitespace(#[trigger] v@[j]),
        ensures
            lo <= hi <= v.len(),
            forall|j: int| hi <= j < v.len() ==> char_is_whitespace(#[trigger] v@[j]),
            hi > lo ==> !char_is_whitespace(v@[hi - 1]),
        decreases hi,
    {
        if !is_whitespace(v[hi - 1]) {
            break;
        }
        hi = hi - 1;
    }
    let ghost t = v@.subrange(lo as int, v.len() as int);
    proof {
        assert forall|j: int| hi - lo <= j < t.len() implies char_is_whitespace(#[trigger] t[j]) by {
            assert(t[j] == v@[j + lo]);
        }
        lemma_trim_end_cut(t, hi - lo);
        let u = t.subrange(0, hi - lo);
        assert(u =~= v@.subrange(lo as int, hi as int));
        if u.len() > 0 {
            assert(u.last() == v@[hi - 1]);
        }
    }
    (lo, hi)
}


/// The text that `<str as Debug>::fmt` writes for a string whose characters
/// are `s` (the string quoted, with escapes).
pub uninterp spec fn str_debug(s: Seq<char>) -> Seq<char>;

/// Formats `s` with `{:?}` (std's `<str as Debug>::fmt`). Claimed: the result
/// is `str_debug(s@)`, a name for that text; nothing more is claimed of it.
#[verifier::external_body]
pub(crate) fn debug_quoted(s: &str) -> (r: String)
    ensures
        r@ == str_debug(s@),
{
    format!("{s:?}")
}

/// `prefix` followed by the debug-quoted `subject`.
pub fn with_quoted(prefix: &str, subject: &str) -> (r: String)
    ensures
        r@ == prefix@ + str_debug(subject@),
{
    let mut m = String::from_str(prefix);
    let q = debug_quoted(subject);
    m.append(q.as_str());
    m
}

} // verus!
