use yell_guard::clock::UtcInstant;
use yell_guard::since::{parse_since, parse_since_span, since_cutoff, since_seconds, SinceError, SinceUnit};
use yell_guard::text::{chars_of, parse_i64};

#[test]
fn spans_of_each_unit() {
    assert_eq!(parse_since_span("24h"), Some((24, SinceUnit::Hours)));
    assert_eq!(parse_since_span("7d"), Some((7, SinceUnit::Days)));
    assert_eq!(parse_since_span("2w"), Some((2, SinceUnit::Weeks)));
    assert_eq!(parse_since_span("  7D \n"), Some((7, SinceUnit::Days)));
    assert_eq!(parse_since_span("+3H"), Some((3, SinceUnit::Hours)));
    assert_eq!(parse_since_span("-2h"), Some((-2, SinceUnit::Hours)));
    assert_eq!(parse_since_span("5dh"), Some((5, SinceUnit::Hours)));
    assert_eq!(parse_since_span("5hw"), Some((5, SinceUnit::Weeks)));
}

#[test]
fn invalid_spans() {
    for text in ["", "h", "24", "24x", "2 4h", "5 h", "x5h", "+h", "-d", "1_0h", "١h", "99999999999999999999h"] {
        assert_eq!(parse_since_span(text), None, "{text:?}");
    }
}

#[test]
fn cutoff_is_now_minus_the_window() {
    let now = UtcInstant { secs: 1_756_650_727, nanos: 123 };
    assert_eq!(since_cutoff("24h", now), Ok(UtcInstant { secs: 1_756_650_727 - 86_400, nanos: 123 }));
    assert_eq!(since_cutoff("7d", now), Ok(UtcInstant { secs: 1_756_650_727 - 7 * 86_400, nanos: 123 }));
    assert_eq!(since_cutoff("2w", now), Ok(UtcInstant { secs: 1_756_650_727 - 2 * 604_800, nanos: 123 }));
    assert_eq!(since_cutoff("-1h", now), Ok(UtcInstant { secs: 1_756_650_727 + 3_600, nanos: 123 }));
    assert_eq!(since_cutoff("bad", now), Err(SinceError::InvalidDuration));
}

#[test]
fn cutoff_out_of_bounds() {
    let now = UtcInstant { secs: 1_756_650_727, nanos: 0 };
    assert_eq!(since_cutoff("9223372036854775807h", now), Err(SinceError::DurationOutOfBounds));
    assert_eq!(since_cutoff("15250284452472w", now), Err(SinceError::DurationOutOfBounds));
    assert_eq!(since_cutoff("2562047788016h", now), Err(SinceError::DurationOutOfBounds));
    assert_eq!(since_cutoff("-2562047788016h", now), Err(SinceError::DurationOutOfBounds));
    assert_eq!(since_cutoff("2562047788015h", now), Err(SinceError::CutoffOutOfRange));
    assert_eq!(since_cutoff("1000000000w", now), Err(SinceError::CutoffOutOfRange));
}

#[test]
fn parse_since_is_relative_to_now() {
    let before = chrono::Utc::now().timestamp();
    let cutoff = parse_since("7d").expect("valid window");
    let after = chrono::Utc::now().timestamp();
    assert!(before - 7 * 86_400 <= cutoff.secs && cutoff.secs <= after - 7 * 86_400);
    assert_eq!(parse_since("7x"), Err(SinceError::InvalidDuration));
}

#[test]
fn decimal_parsing_follows_i64_from_str() {
    let cases = ["0", "-0", "+7", "-9223372036854775808", "9223372036854775807", "9223372036854775808",
        "-9223372036854775809", "", "+", "-", "12a", " 1", "00042", "1e3"];
    for text in cases {
        let chars = chars_of(text);
        assert_eq!(parse_i64(&chars, 0, chars.len()), text.parse::<i64>().ok(), "{text:?}");
    }
}

#[test]
fn window_lengths_in_seconds() {
    assert_eq!(since_seconds("24h"), Ok(86_400));
    assert_eq!(since_seconds("3d"), Ok(259_200));
    assert_eq!(since_seconds("1w"), Ok(604_800));
    assert_eq!(since_seconds("2562047788015h"), Ok(9_223_372_036_854_000));
    assert_eq!(since_seconds("2562047788016h"), Err(SinceError::DurationOutOfBounds));
    assert_eq!(since_seconds("oops"), Err(SinceError::InvalidDuration));
}

#[test]
fn cutoffs_inside_the_date_range_exist() {
    let now = UtcInstant { secs: 1_735_689_600, nanos: 0 }; // 2025-01-01T00:00:00Z
    assert!(since_cutoff("24h", now).is_ok());
    assert!(since_cutoff("400000w", now).is_ok());
    assert_eq!(parse_since("2562047788016h"), Err(SinceError::DurationOutOfBounds));
}

#[test]
fn equal_windows_give_equal_cutoffs() {
    let now = UtcInstant { secs: 1_756_650_727, nanos: 42 };
    let week = since_cutoff("7d", now);
    assert!(week.is_ok());
    for text in [" 7D ", "168h", "1w", "1W", "\t168H\n"] {
        assert_eq!(since_cutoff(text, now), week, "{text:?}");
    }
    let fortnight = since_cutoff("2w", now);
    assert_eq!(since_cutoff("14d", now), fortnight);
    assert_eq!(since_cutoff("336h", now), fortnight);
}

#[test]
fn longer_windows_give_earlier_cutoffs() {
    let now = UtcInstant { secs: 1_756_650_727, nanos: 0 };
    let mut previous = since_cutoff("0h", now).unwrap();
    for n in 1..50 {
        let cutoff = since_cutoff(&format!("{n}h"), now).unwrap();
        assert!(cutoff.secs <= previous.secs);
        previous = cutoff;
    }
}
