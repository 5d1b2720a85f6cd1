//! The `--since` window of the stats command: text such as `24h`, `7d` or
//! `2w`, and the cutoff instant it gives.
use vstd::prelude::*;
use crate::clock::{
    days_seconds, hours_seconds, minus_seconds, rfc3339_text, spec_earlier, UtcNow, safe_instant_range, seconds_in_range, try_days_seconds,
    try_hours_seconds, try_weeks_seconds, utc_minus_seconds, utc_now, weeks_seconds, UtcInstant,
};
use crate::text::{chars_of, is_white_space, parse_i64, parse_i64_spec, trim, trim_end, trim_start, trimmed_range};

verus! {

/// The unit of a `--since` window.
#[derive(Clone, Copy, Debug, PartialEq, Eq, Structural)]
pub enum SinceUnit {
    Hours,
    Days,
    Weeks,
}

/// Why no cutoff was computed.
#[derive(Clone, Copy, Debug, PartialEq, Eq, Structural)]
pub enum SinceError {
    /// The text is not a whole number followed by `h`, `d` or `w`.
    InvalidDuration,
    /// The window does not fit in a `chrono::TimeDelta`.
    DurationOutOfBounds,
    /// The cutoff falls outside chrono's date range.
    CutoffOutOfRange,
    /// The system clock could not be read (before 1970, or beyond chrono's range).
    ClockUnavailable,
}

/// `char::to_ascii_lowercase`.
pub open spec fn ascii_lower(c: char) -> char {
    if 65 <= c as u32 && c as u32 <= 90 {
        ((c as u32) + 32) as char
    } else {
        c
    }
}

/// A unit letter of the window.
pub open spec fn is_unit_char(c: char) -> bool {
    c == 'h' || c == 'd' || c == 'w'
}

/// `str::trim_end_matches` of the unit letters: `s` without its trailing
/// `h`, `d` and `w` characters.
pub open spec fn strip_unit_chars(s: Seq<char>) -> Seq<char>
    decreases s.len(),
{
    if s.len() > 0 && is_unit_char(s.last()) {
        strip_unit_chars(s.drop_last())
    } else {
        s
    }
}

/// The window text, trimmed and in ASCII lower case.
pub open spec fn normalized(value: Seq<char>) -> Seq<char> {
    trim(value).map_values(|c: char| ascii_lower(c))
}

/// The number and unit of a window: the number is the normalized text
/// without its trailing unit letters, read as an `i64`; the unit is given by
/// the last character of the normalized text.
pub open spec fn since_span(value: Seq<char>) -> Option<(i64, SinceUnit)> {
    let n = normalized(value);
    match parse_i64_spec(strip_unit_chars(n)) {
        None => None,
        Some(k) => if n.len() > 0 && n.last() == 'w' {
            Some((k, SinceUnit::Weeks))
        } else if n.len() > 0 && n.last() == 'd' {
            Some((k, SinceUnit::Days))
        } else if n.len() > 0 && n.last() == 'h' {
            Some((k, SinceUnit::Hours))
        } else {
            None
        },
    }
}

/// The length of a window in seconds.
pub open spec fn span_seconds(k: i64, unit: SinceUnit) -> int {
    match unit {
        SinceUnit::Weeks => weeks_seconds(k as int),
        SinceUnit::Days => days_seconds(k as int),
        SinceUnit::Hours => hours_seconds(k as int),
    }
}

/// The length of a window in seconds, or why there is none.
pub open spec fn since_seconds_spec(value: Seq<char>) -> Result<i64, SinceError> {
    match since_span(value) {
        None => Err(SinceError::InvalidDuration),
        Some((k, unit)) => if !seconds_in_range(span_seconds(k, unit)) {
            Err(SinceError::DurationOutOfBounds)
        } else {
            Ok(span_seconds(k, unit) as i64)
        },
    }
}

/// The instant `seconds` before `now`, where chrono gives `chrono_result`
/// for it: plain subtraction outside a leap second, chrono's own answer in one.
pub open spec fn cutoff_instant(now: UtcInstant, seconds: i64, chrono_result: (i64, u32)) -> UtcInstant {
    if now.nanos < 1_000_000_000 {
        UtcInstant { secs: (now.secs - seconds) as i64, nanos: now.nanos }
    } else {
        UtcInstant { secs: chrono_result.0, nanos: chrono_result.1 }
    }
}

/// The cutoff of a window ending at `now`: `now` minus the window, where
/// chrono's date range holds it.
pub open spec fn since_cutoff_spec(value: Seq<char>, now: UtcInstant) -> Result<UtcInstant, SinceError> {
    match since_seconds_spec(value) {
        Err(e) => Err(e),
        Ok(seconds) => match utc_minus_seconds(now.secs, now.nanos, seconds) {
            Some(r) => Ok(cutoff_instant(now, seconds, r)),
            None => Err(SinceError::CutoffOutOfRange),
        },
    }
}

/// `char::to_ascii_lowercase`.
pub fn ascii_lower_char(c: char) -> (res: char)
    ensures
        res == ascii_lower(c),
{
    let u = c as u32;
    if 65 <= u && u <= 90 {
        ((u + 32) as u8) as char
    } else {
        c
    }
}

/// The number and unit of a `--since` window.
pub fn parse_since_span(value: &str) -> (res: Option<(i64, SinceUnit)>)
    ensures
        res == since_span(value@),
{
    let chars = chars_of(value);
    let (a, b) = trimmed_range(&chars, 0, chars.len());
    assert(chars@.subrange(0, chars@.len() as int) =~= value@);
    let mut n: Vec<char> = Vec::new();
    let mut i = a;
    while i < b
        invariant
            a <= i <= b <= chars.len(),
            n@ == chars@.subrange(a as int, i as int).map_values(|c: char| ascii_lower(c)),
        decreases b - i,
    {
        n.push(ascii_lower_char(chars[i]));
        assert(n@ =~= chars@.subrange(a as int, i + 1).map_values(|c: char| ascii_lower(c)));
        i += 1;
    }
    assert(n@ == normalized(value@));
    let mut e = n.len();
    assert(n@.subrange(0, e as int) =~= n@);
    while e > 0 && (n[e - 1] == 'h' || n[e - 1] == 'd' || n[e - 1] == 'w')
        invariant
            e <= n.len(),
            strip_unit_chars(n@) == strip_unit_chars(n@.subrange(0, e as int)),
        decreases e,
    {
        assert(n@.subrange(0, e - 1) =~= n@.subrange(0, e as int).drop_last());
        e -= 1;
    }
    let number = match parse_i64(&n, 0, e) {
        Some(k) => k,
        None => return None,
    };
    let len = n.len();
    if len > 0 && n[len - 1] == 'w' {
        Some((number, SinceUnit::Weeks))
    } else if len > 0 && n[len - 1] == 'd' {
        Some((number, SinceUnit::Days))
    } else if len > 0 && n[len - 1] == 'h' {
        Some((number, SinceUnit::Hours))
    } else {
        None
    }
}

/// The length in seconds of the window `value`.
pub fn since_seconds(value: &str) -> (res: Result<i64, SinceError>)
    ensures
        res == since_seconds_spec(value@),
        res matches Ok(s) ==> seconds_in_range(s as int),
{
    let (k, unit) = match parse_since_span(value) {
        Some(span) => span,
        None => return Err(SinceError::InvalidDuration),
    };
    let seconds = match unit {
        SinceUnit::Weeks => try_weeks_seconds(k),
        SinceUnit::Days => try_days_seconds(k),
        SinceUnit::Hours => try_hours_seconds(k),
    };
    match seconds {
        Some(s) => Ok(s),
        None => Err(SinceError::DurationOutOfBounds),
    }
}

/// The cutoff of the window `value` ending at `now`. Outside a leap second it
/// is `now` minus the window, and there is one whenever `now` and the cutoff
/// lie well inside chrono's date range.
pub fn since_cutoff(value: &str, now: UtcInstant) -> (res: Result<UtcInstant, SinceError>)
    ensures
        res == since_cutoff_spec(value@, now),
        now.nanos < 1_000_000_000 ==> (res matches Ok(cutoff) ==> cutoff.nanos == now.nanos
            && cutoff.secs == now.secs - since_seconds_spec(value@)->Ok_0),
        since_seconds_spec(value@) matches Ok(s) && now.nanos < 1_000_000_000 && safe_instant_range(
            now.secs as int,
        ) && safe_instant_range(now.secs - s) ==> res is Ok,
{
    let seconds = match since_seconds(value) {
        Ok(s) => s,
        Err(e) => return Err(e),
    };
    match minus_seconds(now, seconds) {
        Some(cutoff) => Ok(cutoff),
        None => Err(SinceError::CutoffOutOfRange),
    }
}

/// The cutoff of the window `value` ending now. The window's length is
/// worked out before the clock is read; then the result is `since_cutoff` at
/// the instant of the clock reading (an instant whose RFC 3339 text the clock
/// gave), unless the clock could not be read.
pub fn parse_since(value: &str) -> (res: Result<UtcInstant, SinceError>)
    ensures
        since_seconds_spec(value@) matches Err(e) ==> res == Err::<UtcInstant, SinceError>(e),
        res == Err::<UtcInstant, SinceError>(SinceError::ClockUnavailable) ==> since_seconds_spec(
            value@,
        ) is Ok,
        res != Err::<UtcInstant, SinceError>(SinceError::ClockUnavailable) ==> exists|now: UtcInstant|
            {
                &&& now.nanos < 1_000_000_000
                &&& res == since_cutoff_spec(value@, now)
                &&& (res matches Ok(cutoff) ==> cutoff.nanos == now.nanos && cutoff.secs == now.secs
                    - since_seconds_spec(value@)->Ok_0)
            },
        since_seconds_spec(value@) is Ok && res != Err::<UtcInstant, SinceError>(
            SinceError::ClockUnavailable,
        ) ==> exists|reading: UtcNow|
            {
                &&& reading.instant.nanos < 1_000_000_000
                &&& reading.rfc3339@ == rfc3339_text(reading.instant.secs, reading.instant.nanos)
                &&& res == since_cutoff_spec(value@, reading.instant)
                &&& (res matches Ok(cutoff) ==> cutoff.nanos == reading.instant.nanos && cutoff.secs
                    == reading.instant.secs - since_seconds_spec(value@)->Ok_0)
            },
{
    let seconds = match since_seconds(value) {
        Ok(s) => s,
        Err(e) => {
            assert(since_cutoff_spec(value@, UtcInstant { secs: 0, nanos: 0 }) == Err::<UtcInstant, SinceError>(e));
            return Err(e);
        },
    };
    let now = match utc_now() {
        Some(now) => now,
        None => return Err(SinceError::ClockUnavailable),
    };
    let res = since_cutoff(value, now.instant);
    assert(now.rfc3339@ == rfc3339_text(now.instant.secs, now.instant.nanos));
    res
}

proof fn lemma_white_space_of_lower(c: char)
    ensures
        is_white_space(ascii_lower(c)) == is_white_space(c),
        ascii_lower(ascii_lower(c)) == ascii_lower(c),
{
}

proof fn lemma_trim_start_shape(s: Seq<char>)
    ensures
        exists|i: int| 0 <= i <= s.len() && trim_start(s) == s.subrange(i, s.len() as int),
        trim_start(s).len() > 0 ==> !is_white_space(trim_start(s)[0]),
    decreases s.len(),
{
    if s.len() > 0 && is_white_space(s[0]) {
        lemma_trim_start_shape(s.drop_first());
        let i = choose|i: int| 0 <= i <= s.drop_first().len() && trim_start(s.drop_first())
            == s.drop_first().subrange(i, s.drop_first().len() as int);
        assert(s.drop_first().subrange(i, s.drop_first().len() as int) =~= s.subrange(i + 1, s.len() as int));
    } else {
        assert(s.subrange(0, s.len() as int) =~= s);
    }
}

proof fn lemma_trim_end_shape(s: Seq<char>)
    ensures
        exists|j: int| 0 <= j <= s.len() && trim_end(s) == s.subrange(0, j),
        trim_end(s).len() > 0 ==> !is_white_space(trim_end(s).last()),
    decreases s.len(),
{
    if s.len() > 0 && is_white_space(s.last()) {
        lemma_trim_end_shape(s.drop_last());
        let j = choose|j: int| 0 <= j <= s.drop_last().len() && trim_end(s.drop_last())
            == s.drop_last().subrange(0, j);
        assert(s.drop_last().subrange(0, j) =~= s.subrange(0, j));
    } else {
        assert(s.subrange(0, s.len() as int) =~= s);
    }
}

proof fn lemma_normalized_is_normal(value: Seq<char>)
    ensures
        normalized(normalized(value)) == normalized(value),
{
    let t0 = trim_start(value);
    lemma_trim_start_shape(value);
    lemma_trim_end_shape(t0);
    let t = trim(value);
    let j = choose|j: int| 0 <= j <= t0.len() && trim_end(t0) == t0.subrange(0, j);
    if t.len() > 0 {
        assert(t[0] == t0[0]);
    }
    let u = normalized(value);
    assert(u.len() == t.len());
    if u.len() > 0 {
        lemma_white_space_of_lower(t[0]);
        lemma_white_space_of_lower(t.last());
        assert(u[0] == ascii_lower(t[0]));
        assert(u.last() == ascii_lower(t.last()));
    }
    assert(trim_start(u) == u);
    assert(trim_end(u) == u);
    assert forall|k: int| 0 <= k < u.len() implies #[trigger] ascii_lower(u[k]) == u[k] by {
        lemma_white_space_of_lower(t[k]);
    }
    assert(normalized(u) =~= u);
}

/// Case and surrounding white space do not matter: a window reads the same
/// as its trimmed, lower-case form (so ` 7D ` reads as `7d`).
pub proof fn law_window_ignores_case_and_spacing(value: Seq<char>)
    ensures
        since_span(normalized(value)) == since_span(value),
{
    lemma_normalized_is_normal(value);
}

/// Only the length of a window matters: two windows of the same length (such
/// as `1w`, `7d` and `168h`) give the same cutoff from the same instant.
pub proof fn law_cutoff_depends_only_on_length(a: Seq<char>, b: Seq<char>, now: UtcInstant)
    requires
        since_seconds_spec(a) == since_seconds_spec(b),
    ensures
        since_cutoff_spec(a, now) == since_cutoff_spec(b, now),
{
}

/// A longer window gives an earlier (or the same) cutoff: for two windows of
/// one unit ending at the same instant (outside a leap second, well inside
/// chrono's range), the one with
/// the larger number has a cutoff no later than the other's.
pub proof fn law_longer_window_earlier_cutoff(
    a: Seq<char>,
    b: Seq<char>,
    n1: i64,
    n2: i64,
    unit: SinceUnit,
    now: UtcInstant,
)
    requires
        since_span(a) == Some((n1, unit)),
        since_span(b) == Some((n2, unit)),
        n1 <= n2,
        now.nanos < 1_000_000_000,
        safe_instant_range(now.secs as int),
        since_cutoff_spec(a, now) is Ok,
        since_cutoff_spec(b, now) is Ok,
    ensures
        !spec_earlier(since_cutoff_spec(a, now)->Ok_0, since_cutoff_spec(b, now)->Ok_0),
{
    assert(span_seconds(n1, unit) <= span_seconds(n2, unit));
    let sa = since_seconds_spec(a)->Ok_0;
    let sb = since_seconds_spec(b)->Ok_0;
    assert(sa as int == span_seconds(n1, unit));
    assert(sb as int == span_seconds(n2, unit));
}

} // verus!
