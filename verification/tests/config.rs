use yell_guard::config::{default_log_path_string, join_component, PathStyle};

#[test]
fn default_path_under_data_dir() {
    assert_eq!(
        default_log_path_string(Some("/home/u/.local/share".to_string()), Some("/home/u".to_string()), PathStyle::Unix),
        "/home/u/.local/share/yell-guard/events.log"
    );
}

#[test]
fn default_path_falls_back_to_home_then_cwd() {
    assert_eq!(default_log_path_string(None, Some("/home/u".to_string()), PathStyle::Unix), "/home/u/yell-guard/events.log");
    assert_eq!(default_log_path_string(None, None, PathStyle::Unix), "./yell-guard/events.log");
}

#[test]
fn default_path_on_windows() {
    assert_eq!(
        default_log_path_string(Some("C:\\Users\\u\\AppData\\Local".to_string()), None, PathStyle::Windows),
        "C:\\Users\\u\\AppData\\Local\\yell-guard\\events.log"
    );
    assert_eq!(default_log_path_string(None, None, PathStyle::Windows), ".\\yell-guard\\events.log");
    assert_eq!(join_component(PathStyle::Windows, "C:", "x"), "C:x");
    assert_eq!(join_component(PathStyle::Windows, "C:/", "x"), "C:/x");
    assert_eq!(join_component(PathStyle::Windows, "D:\\data\\", "x"), "D:\\data\\x");
    assert_eq!(join_component(PathStyle::Unix, "C:", "x"), "C:/x");
    assert_eq!(join_component(PathStyle::Unix, "a\\", "x"), "a\\/x");
}

#[test]
fn join_follows_path_push() {
    assert_eq!(join_component(PathStyle::Unix, "/data/", "x"), "/data/x");
    assert_eq!(join_component(PathStyle::Unix, "", "x"), "x");
    assert_eq!(join_component(PathStyle::Unix, "/", "x"), "/x");
    let style = PathStyle::Unix;
    for base in ["/data/", "", "/", "a/b", "rel"] {
        let expected = std::path::PathBuf::from(base).join("yell-guard").to_string_lossy().to_string();
        assert_eq!(join_component(style, base, "yell-guard"), expected);
    }
}
