use yell_guard::detector::Detector;
use yell_guard::level::Dbfs;

fn db(x: f32) -> Dbfs {
    Dbfs::from_bits(x.to_bits())
}

fn value(d: Dbfs) -> f32 {
    f32::from_bits(d.to_bits())
}

#[test]
fn sustained_loudness_triggers_event() {
    let mut detector = Detector::new(db(-18.0), 2, 5000);

    let event1 = detector.update(db(-16.0), 1000);
    assert!(event1.is_none());

    let event2 = detector.update(db(-15.0), 2000);
    assert!(event2.is_some());
    assert_eq!(event2.unwrap().duration_ms, 1000);
}

#[test]
fn quiet_windows_reset_the_counter() {
    let mut detector = Detector::new(db(-18.0), 2, 5000);

    assert!(detector.update(db(-10.0), 1000).is_none());
    assert!(detector.update(db(-30.0), 2000).is_none());
    assert!(detector.update(db(-12.0), 3000).is_none());
    assert!(detector.update(db(-14.0), 4000).is_none());
}

#[test]
fn interrupted_run_debounces_for_the_cooldown() {
    let mut detector = Detector::new(db(-18.0), 2, 5000);
    assert!(detector.update(db(-10.0), 1000).is_none());
    assert!(detector.would_start_cooldown(db(-30.0), 2000));
    assert!(detector.update(db(-30.0), 2000).is_none());
    assert!(detector.update(db(-12.0), 6999).is_none());
    assert!(detector.update(db(-12.0), 7000).is_none());
    let event = detector.update(db(-14.0), 7100).expect("a fresh run after the cooldown fires");
    assert_eq!(event.duration_ms, 100);
    assert_eq!(value(event.peak_dbfs), -12.0);
}

#[test]
fn quiet_window_without_a_run_starts_no_cooldown() {
    let mut detector = Detector::new(db(-18.0), 2, 5000);
    assert!(!detector.would_start_cooldown(db(-30.0), 1000));
    assert!(detector.update(db(-30.0), 1000).is_none());
    assert!(detector.update(db(-12.0), 1100).is_none());
    assert!(detector.update(db(-12.0), 1200).is_some());
}

#[test]
fn cooldown_blocks_repeated_events() {
    let mut detector = Detector::new(db(-18.0), 1, 5000);

    let first = detector.update(db(-12.0), 1000);
    assert!(first.is_some());

    let second = detector.update(db(-10.0), 2000);
    assert!(second.is_none());
}

#[test]
fn peak_dbfs_tracks_the_loudest_window() {
    let mut detector = Detector::new(db(-18.0), 2, 5000);

    detector.update(db(-16.0), 1000);
    let event = detector.update(db(-7.0), 2000);
    let event = event.expect("event should fire");
    assert!(value(event.peak_dbfs) > -10.0);
}

#[test]
fn event_peak_and_duration_are_exact() {
    let mut detector = Detector::new(db(-18.0), 3, 100);
    assert!(detector.update(db(-5.5), 10).is_none());
    assert!(detector.update(db(-17.0), 90).is_none());
    let event = detector.update(db(-9.25), 250).expect("third loud window fires");
    assert_eq!(value(event.peak_dbfs), -5.5);
    assert_eq!(event.duration_ms, 240);
    let timestamp = event.timestamp.expect("the clock reads after 1970");
    assert!(chrono::DateTime::parse_from_rfc3339(&timestamp).is_ok());
    assert_eq!(timestamp.len(), "2026-08-31T14:32:07Z".len());
    assert!(timestamp.ends_with('Z'));
    let written = chrono::DateTime::parse_from_rfc3339(&timestamp).unwrap().timestamp();
    assert!((chrono::Utc::now().timestamp() - written).abs() < 60);
}

#[test]
fn window_at_threshold_counts() {
    let mut detector = Detector::new(db(-18.0), 1, 0);
    let event = detector.update(db(-18.0), 5).expect("a window at the threshold counts");
    assert_eq!(value(event.peak_dbfs), -18.0);
    assert_eq!(event.duration_ms, 0);
}

#[test]
fn zero_sustain_fires_on_one_window() {
    let mut detector = Detector::new(db(-18.0), 0, 1000);
    assert!(detector.update(db(-1.0), 7).is_some());
}

#[test]
fn cooldown_ends_at_its_deadline() {
    let mut detector = Detector::new(db(-18.0), 1, 5000);
    assert!(detector.update(db(-12.0), 1000).is_some());
    assert!(detector.update(db(-12.0), 5999).is_none());
    assert!(detector.update(db(-12.0), 6000).is_some());
}

#[test]
fn cooldown_window_breaks_a_run() {
    let mut detector = Detector::new(db(-18.0), 2, 1000);
    assert!(detector.update(db(-1.0), 0).is_none());
    assert!(detector.update(db(-1.0), 10).is_some());
    assert!(detector.update(db(-1.0), 500).is_none());
    assert!(detector.update(db(-1.0), 1010).is_none());
    let event = detector.update(db(-2.0), 1020).expect("a fresh run of two fires");
    assert_eq!(event.duration_ms, 10);
    assert_eq!(value(event.peak_dbfs), -1.0);
}

#[test]
fn nan_window_is_quiet() {
    let mut detector = Detector::new(db(-18.0), 2, 1000);
    assert!(detector.update(db(-1.0), 0).is_none());
    assert!(detector.update(db(f32::NAN), 10).is_none());
    assert!(detector.update(db(-1.0), 1010).is_none());
    assert!(detector.update(db(-1.0), 1020).is_some());
}

#[test]
fn nan_threshold_never_fires() {
    let mut detector = Detector::new(db(f32::NAN), 1, 0);
    for t in 0..5u64 {
        assert!(detector.update(db(0.0), t).is_none());
    }
}

#[test]
fn duration_saturates_when_time_goes_back() {
    let mut detector = Detector::new(db(-18.0), 2, 0);
    assert!(detector.update(db(-1.0), 500).is_none());
    let event = detector.update(db(-1.0), 100).expect("fires");
    assert_eq!(event.duration_ms, 0);
}

#[test]
fn cloned_detector_continues_the_same_run() {
    let mut detector = Detector::new(db(-18.0), 2, 5000);
    assert!(detector.update(db(-10.0), 1000).is_none());
    let mut copy = detector.clone();
    assert!(copy.update(db(-11.0), 2000).is_some());
    assert!(detector.update(db(-11.0), 2000).is_some());
}
