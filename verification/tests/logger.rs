use yell_guard::clock::UtcInstant;
use yell_guard::detector::YellEvent;
use yell_guard::level::Dbfs;
use yell_guard::logger::{entries_since, frame_record, log_lines, LogEntry, ReadError};

fn entry(timestamp: &str, peak: f32, duration_ms: u64) -> LogEntry {
    LogEntry { timestamp: timestamp.to_string(), peak_dbfs: Dbfs::from_bits(peak.to_bits()), duration_ms }
}

#[test]
fn lines_are_trimmed_and_empty_ones_dropped() {
    let lines = log_lines("a\n\n  b \r\n \t \nc");
    assert_eq!(lines, vec!["a".to_string(), "b".to_string(), "c".to_string()]);
    assert!(log_lines("").is_empty());
    assert!(log_lines("\n\r\n   ").is_empty());
    assert_eq!(log_lines("x\ry\n"), vec!["x\ry".to_string()]);
    assert_eq!(log_lines("\u{3000}é\u{a0}\n"), vec!["é".to_string()]);
}

#[test]
fn lines_agree_with_str_lines() {
    let text = " {\"a\":1}\r\n\n{\"b\":2}  \n\t\n{\"c\":3}";
    let expected: Vec<String> =
        text.lines().map(|l| l.trim()).filter(|l| !l.is_empty()).map(|l| l.to_string()).collect();
    assert_eq!(log_lines(text), expected);
}

#[test]
fn appended_records_read_back_in_order() {
    let first = "{\"timestamp\":\"2026-08-31T14:32:07Z\",\"peak_dbfs\":-6.2,\"duration_ms\":420}";
    let second = "{\"timestamp\":\"2026-08-31T15:00:00Z\",\"peak_dbfs\":-9.0,\"duration_ms\":100}";
    let mut contents = String::new();
    contents.push_str(&frame_record(first));
    assert_eq!(log_lines(&contents), vec![first.to_string()]);
    contents.push_str(&frame_record(second));
    assert_eq!(log_lines(&contents), vec![first.to_string(), second.to_string()]);
    assert_eq!(frame_record(first), format!("{first}\n"));
}

#[test]
fn entry_of_event_keeps_its_values() {
    let event = YellEvent {
        timestamp: Some("2026-08-31T14:32:07+00:00".to_string()),
        peak_dbfs: Dbfs::from_bits((-6.2f32).to_bits()),
        duration_ms: 420,
    };
    let e = LogEntry::from_event(&event);
    assert_eq!(Some(e.timestamp), event.timestamp);
    assert_eq!(e.peak_dbfs, event.peak_dbfs);
    assert_eq!(e.duration_ms, 420);
}

#[test]
fn entries_without_cutoff_are_all_kept() {
    let records: Vec<Result<LogEntry, String>> =
        vec![Ok(entry("not a time", -3.0, 1)), Ok(entry("2026-08-31T14:32:07Z", -4.0, 2))];
    let kept = entries_since(records, None).expect("no cutoff, no timestamp check");
    assert_eq!(kept.len(), 2);
    assert_eq!(kept[1].duration_ms, 2);
}

#[test]
fn entries_earlier_than_cutoff_are_left_out() {
    let cutoff = UtcInstant { secs: 1_788_186_727, nanos: 0 }; // 2026-08-31T14:32:07Z
    let records: Vec<Result<LogEntry, String>> = vec![
        Ok(entry("2026-08-31T14:32:06Z", -3.0, 1)),
        Ok(entry("2026-08-31T14:32:07Z", -4.0, 2)),
        Ok(entry("2026-08-31T16:32:06+02:00", -5.0, 3)),
        Ok(entry("2026-08-31T16:32:08+02:00", -6.0, 4)),
        Ok(entry("2026-08-31T14:32:07.5Z", -7.0, 5)),
    ];
    let kept = entries_since(records, Some(cutoff)).expect("all timestamps readable");
    let durations: Vec<u64> = kept.iter().map(|e| e.duration_ms).collect();
    assert_eq!(durations, vec![2, 4, 5]);
}

#[test]
fn first_failure_stops_reading() {
    let cutoff = UtcInstant { secs: 0, nanos: 0 };
    let records: Vec<Result<LogEntry, String>> =
        vec![Ok(entry("2026-08-31T14:32:07Z", -3.0, 1)), Ok(entry("yesterday", -4.0, 2)), Err("bad json".to_string())];
    match entries_since(records, Some(cutoff)) {
        Err(ReadError::Timestamp(_)) => {}
        other => panic!("expected a timestamp error, got {other:?}"),
    }
    let records: Vec<Result<LogEntry, String>> =
        vec![Ok(entry("2026-08-31T14:32:07Z", -3.0, 1)), Err("bad json".to_string()), Ok(entry("yesterday", -4.0, 2))];
    match entries_since(records, Some(cutoff)) {
        Err(ReadError::Entry(e)) => assert_eq!(e, "bad json"),
        other => panic!("expected an entry error, got {other:?}"),
    }
}
