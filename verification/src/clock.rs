//! Instants in UTC as plain values, and the calls into `chrono` that read
//! the clock, parse RFC 3339 text and do calendar arithmetic.
use vstd::prelude::*;
use chrono::{DateTime, SecondsFormat, TimeDelta};

verus! {

/// An instant: whole seconds since 1970-01-01T00:00:00Z (leap seconds not
/// counted) and the nanoseconds past that second (above 999,999,999 only
/// inside a leap second).
#[derive(Clone, Copy, Debug, PartialEq, Eq, Structural)]
pub struct UtcInstant {
    pub secs: i64,
    pub nanos: u32,
}

/// The current time, as an instant and as RFC 3339 text.
#[derive(Clone, Debug)]
pub struct UtcNow {
    pub instant: UtcInstant,
    pub rfc3339: String,
}

/// The RFC 3339 text that chrono writes for an instant in whole seconds with
/// a `Z` suffix (such as `2026-08-31T14:32:07Z`):
/// `DateTime::to_rfc3339_opts(SecondsFormat::Secs, true)` of the
/// `DateTime<Utc>` that `DateTime::from_timestamp(secs, nanos)` builds.
pub uninterp spec fn rfc3339_text(secs: i64, nanos: u32) -> Seq<char>;

/// Reads the system clock as `chrono::Utc::now` does, without its panics:
/// `std::time::SystemTime::now` since the Unix epoch, turned into a
/// `DateTime<Utc>` by `DateTime::from_timestamp`, and given as its instant
/// (`DateTime::timestamp`, `DateTime::timestamp_subsec_nanos`) and its RFC 3339
/// text in whole seconds with a `Z` suffix
/// (`DateTime::to_rfc3339_opts(SecondsFormat::Secs, true)`). `None` where `Utc::now` panics: the clock
/// reads before 1970, or beyond chrono's date range. Claimed: the instant is
/// not inside a leap second (a `Duration`'s sub-second nanoseconds are below
/// one billion) and the text is that of the instant. The time itself comes
/// from the clock and is not stated.
#[verifier::external_body]
pub(crate) fn utc_now() -> (res: Option<UtcNow>)
    ensures
        res matches Some(now) ==> now.instant.nanos < 1_000_000_000 && now.rfc3339@ == rfc3339_text(
            now.instant.secs,
            now.instant.nanos,
        ),
{
    let elapsed = match std::time::SystemTime::now().duration_since(std::time::UNIX_EPOCH) {
        Ok(d) => d,
        Err(_) => return None,
    };
    let t = match DateTime::from_timestamp(elapsed.as_secs() as i64, elapsed.subsec_nanos()) {
        Some(t) => t,
        None => return None,
    };
    Some(UtcNow {
        instant: UtcInstant { secs: t.timestamp(), nanos: t.timestamp_subsec_nanos() },
        rfc3339: t.to_rfc3339_opts(SecondsFormat::Secs, true),
    })
}

#[verifier::external_type_specification]
#[verifier::external_body]
pub struct ExParseError(chrono::ParseError);

/// The instant (UTC seconds and nanoseconds) that `chrono` reads from RFC 3339
/// text, or `None` where it refuses the text.
pub uninterp spec fn rfc3339_instant(text: Seq<char>) -> Option<(i64, u32)>;

/// `chrono::DateTime::parse_from_rfc3339`, with the parsed date and time given
/// as its UTC instant (`DateTime::timestamp`, `DateTime::timestamp_subsec_nanos`,
/// which do not depend on the offset written in the text). The contract only
/// ties the result to the name `rfc3339_instant`; what chrono accepts is not
/// restated here.
#[verifier::external_body]
pub(crate) fn parse_rfc3339(text: &str) -> (res: Result<UtcInstant, chrono::ParseError>)
    ensures
        match res {
            Ok(t) => rfc3339_instant(text@) == Some((t.secs, t.nanos)),
            Err(_) => rfc3339_instant(text@) is None,
        },
{
    match DateTime::parse_from_rfc3339(text) {
        Ok(t) => Ok(UtcInstant { secs: t.timestamp(), nanos: t.timestamp_subsec_nanos() }),
        Err(e) => Err(e),
    }
}

/// The whole seconds that a `chrono::TimeDelta` can hold: `TimeDelta::try_seconds`
/// accepts exactly `-(i64::MAX / 1000) ..= i64::MAX / 1000`.
pub open spec fn seconds_in_range(secs: int) -> bool {
    -9_223_372_036_854_775int <= secs && secs <= 9_223_372_036_854_775int
}

/// Seconds per week, day and hour.
pub open spec fn weeks_seconds(n: int) -> int {
    n * 604_800
}

pub open spec fn days_seconds(n: int) -> int {
    n * 86_400
}

pub open spec fn hours_seconds(n: int) -> int {
    n * 3_600
}

/// `chrono::TimeDelta::try_weeks` (`weeks * 604800` seconds, checked), read
/// back in seconds with `TimeDelta::num_seconds`: `None` exactly when the
/// product leaves the range of `TimeDelta`.
#[verifier::external_body]
pub(crate) fn try_weeks_seconds(weeks: i64) -> (res: Option<i64>)
    ensures
        res == (if seconds_in_range(weeks_seconds(weeks as int)) {
            Some(weeks_seconds(weeks as int) as i64)
        } else {
            None
        }),
{
    match TimeDelta::try_weeks(weeks) {
        Some(d) => Some(d.num_seconds()),
        None => None,
    }
}

/// `chrono::TimeDelta::try_days` (`days * 86400` seconds, checked), read back
/// in seconds: `None` exactly when the product leaves the range of `TimeDelta`.
#[verifier::external_body]
pub(crate) fn try_days_seconds(days: i64) -> (res: Option<i64>)
    ensures
        res == (if seconds_in_range(days_seconds(days as int)) {
            Some(days_seconds(days as int) as i64)
        } else {
            None
        }),
{
    match TimeDelta::try_days(days) {
        Some(d) => Some(d.num_seconds()),
        None => None,
    }
}

/// `chrono::TimeDelta::try_hours` (`hours * 3600` seconds, checked), read back
/// in seconds: `None` exactly when the product leaves the range of `TimeDelta`.
#[verifier::external_body]
pub(crate) fn try_hours_seconds(hours: i64) -> (res: Option<i64>)
    ensures
        res == (if seconds_in_range(hours_seconds(hours as int)) {
            Some(hours_seconds(hours as int) as i64)
        } else {
            None
        }),
{
    match TimeDelta::try_hours(hours) {
        Some(d) => Some(d.num_seconds()),
        None => None,
    }
}

/// Seconds since 1970 that lie well inside chrono's date range: about
/// 253,000 years on either side of 1970.
pub open spec fn safe_instant_range(secs: int) -> bool {
    -8_000_000_000_000int <= secs && secs <= 8_000_000_000_000int
}

/// The instant `delta` seconds before the instant `(secs, nanos)`, as chrono
/// computes it, or `None` where chrono's date range is left.
pub uninterp spec fn utc_minus_seconds(secs: i64, nanos: u32, delta: i64) -> Option<(i64, u32)>;

/// `chrono::DateTime::<Utc>::checked_sub_signed` of `TimeDelta::seconds(delta)`
/// on the date and time that `DateTime::from_timestamp` builds from `t`.
/// The result is named `utc_minus_seconds`. Outside a leap second
/// (nanoseconds below one second) the result, where there is one, is plain
/// subtraction of seconds, and there is one whenever both instants lie in
/// `safe_instant_range` (chrono's dates run from year -262,143 to 262,142;
/// the exact ends are not restated).
#[verifier::external_body]
pub(crate) fn minus_seconds(t: UtcInstant, delta: i64) -> (res: Option<UtcInstant>)
    requires
        seconds_in_range(delta as int),
    ensures
        match res {
            Some(r) => utc_minus_seconds(t.secs, t.nanos, delta) == Some((r.secs, r.nanos)),
            None => utc_minus_seconds(t.secs, t.nanos, delta) is None,
        },
        t.nanos < 1_000_000_000 ==> (res matches Some(r) ==> r.secs == t.secs - delta && r.nanos
            == t.nanos),
        t.nanos < 1_000_000_000 && safe_instant_range(t.secs as int) && safe_instant_range(
            t.secs - delta,
        ) ==> res is Some,
{
    let start = match DateTime::from_timestamp(t.secs, t.nanos) {
        Some(d) => d,
        None => return None,
    };
    match start.checked_sub_signed(TimeDelta::seconds(delta)) {
        Some(r) => Some(UtcInstant { secs: r.timestamp(), nanos: r.timestamp_subsec_nanos() }),
        None => None,
    }
}

/// `a` is strictly earlier than `b` (the order of `DateTime<Utc>`).
pub open spec fn spec_earlier(a: UtcInstant, b: UtcInstant) -> bool {
    a.secs < b.secs || (a.secs == b.secs && a.nanos < b.nanos)
}

impl UtcInstant {
    /// `self < other` on instants.
    pub fn earlier_than(&self, other: &UtcInstant) -> (res: bool)
        ensures
            res == spec_earlier(*self, *other),
    {
        self.secs < other.secs || (self.secs == other.secs && self.nanos < other.nanos)
    }

    /// The hour of the day in UTC, `Timelike::hour` of the date and time.
    pub open spec fn spec_hour(self) -> int {
        (self.secs as int % 86_400) / 3_600
    }

    /// The hour of the day in UTC.
    pub fn hour(&self) -> (res: u32)
        ensures
            res == self.spec_hour(),
            res < 24,
    {
        let r = self.secs % 86_400;
        let day_secs = if r < 0 { r + 86_400 } else { r };
        (day_secs / 3_600) as u32
    }
}

} // verus!
