use yell_guard::audio::{capture_sample_rate, frame_windows, window_sample_count};

#[test]
fn sample_rate_is_clamped() {
    assert_eq!(capture_sample_rate(44100), 44100);
    assert_eq!(capture_sample_rate(100), 8000);
    assert_eq!(capture_sample_rate(1_000_000), 192000);
    assert_eq!(capture_sample_rate(8000), 8000);
    assert_eq!(capture_sample_rate(192000), 192000);
}

#[test]
fn samples_per_window() {
    assert_eq!(window_sample_count(44100, 80), 3528);
    assert_eq!(window_sample_count(8000, 0), 0);
    assert_eq!(window_sample_count(48000, 1), 48);
    assert_eq!(window_sample_count(44100, 1), 44);
}

#[test]
fn windows_cover_whole_runs_only() {
    assert_eq!(frame_windows(10, 3), vec![(0, 3), (3, 6), (6, 9)]);
    assert_eq!(frame_windows(2, 3), vec![]);
    assert_eq!(frame_windows(6, 3), vec![(0, 3), (3, 6)]);
    assert_eq!(frame_windows(2, 0), vec![(0, 1), (1, 2)]);
    assert_eq!(frame_windows(0, 5), vec![]);
}
