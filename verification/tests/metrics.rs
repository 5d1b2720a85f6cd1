use yell_guard::level::Dbfs;
use yell_guard::logger::LogEntry;
use yell_guard::clock::UtcInstant;
use yell_guard::metrics::{busiest_hour, hours_at, summarize, summarize_at};

fn entry(timestamp: &str, peak: f32) -> LogEntry {
    LogEntry { timestamp: timestamp.to_string(), peak_dbfs: Dbfs::from_bits(peak.to_bits()), duration_ms: 0 }
}

fn value(d: Dbfs) -> f32 {
    f32::from_bits(d.to_bits())
}

#[test]
fn empty_log_summary() {
    let s = summarize(&[]).expect("no clock needed");
    assert_eq!(s.total_events, 0);
    assert_eq!(s.events_in_window, 0);
    assert_eq!(value(s.peak_dbfs), 0.0);
    assert!(value(s.peak_dbfs).is_sign_positive());
    assert_eq!(s.busiest_hour, None);
}

#[test]
fn summary_counts_peak_and_busiest_hour() {
    let entries = vec![
        entry("2026-08-31T14:32:07Z", -6.2),
        entry("2026-08-31T15:01:00Z", -9.0),
        entry("2026-08-31T17:10:00+02:00", -3.5),
        entry("2026-09-01T23:59:59Z", -20.0),
    ];
    let s = summarize(&entries).expect("the clock reads after 1970");
    assert_eq!(s.total_events, 4);
    assert_eq!(s.events_in_window, 4);
    assert_eq!(value(s.peak_dbfs), -3.5);
    assert_eq!(s.busiest_hour, Some(15));
}

#[test]
fn hours_are_taken_in_utc() {
    let entries = vec![entry("2026-08-31T01:30:00+03:00", -1.0), entry("1969-12-31T23:00:00Z", -1.0)];
    let now = UtcInstant { secs: 0, nanos: 0 };
    assert_eq!(hours_at(&entries, now), vec![22, 23]);
}

#[test]
fn unreadable_timestamp_still_gets_an_hour() {
    let entries = vec![entry("not a time", -1.0), entry("2026-08-31T05:00:00Z", -1.0)];
    let now = UtcInstant { secs: 1_788_145_200, nanos: 0 }; // 2026-08-31T03:00:00Z
    assert_eq!(hours_at(&entries, now), vec![3, 5]);
    assert_eq!(summarize_at(&entries, now).busiest_hour, Some(3));
    assert!(summarize(&entries).expect("the clock reads after 1970").busiest_hour.is_some());
}

#[test]
fn busiest_hour_prefers_the_earliest_of_ties() {
    assert_eq!(busiest_hour(&[]), None);
    assert_eq!(busiest_hour(&[5, 3, 5, 3]), Some(3));
    assert_eq!(busiest_hour(&[23, 0, 23]), Some(23));
    assert_eq!(busiest_hour(&[7]), Some(7));
}

#[test]
fn peak_ignores_nan() {
    let entries = vec![entry("2026-08-31T14:32:07Z", f32::NAN), entry("2026-08-31T14:32:07Z", -40.0)];
    assert_eq!(value(summarize(&entries).unwrap().peak_dbfs), -40.0);
}
