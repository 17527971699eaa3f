use meetcat::logging::{
    is_older_than, is_sensitive_key, level_allowed, level_value, mask_id, mask_text, mask_url,
    now_ms, rate_limit_window_ms, LogManager,
};
use meetcat::settings::{LogLevel, Settings, TauriSettings};

fn collecting_settings(level: LogLevel) -> Settings {
    Settings {
        tauri: Some(TauriSettings {
            log_collection_enabled: true,
            log_level: level,
            ..TauriSettings::default()
        }),
        ..Settings::default()
    }
}

#[test]
fn test_level_value_order() {
    assert_eq!(level_value(&LogLevel::Error), 0);
    assert_eq!(level_value(&LogLevel::Warn), 1);
    assert_eq!(level_value(&LogLevel::Info), 2);
    assert_eq!(level_value(&LogLevel::Debug), 3);
    assert_eq!(level_value(&LogLevel::Trace), 4);
}

#[test]
fn test_level_allowed() {
    assert!(level_allowed(&LogLevel::Error, &LogLevel::Info));
    assert!(level_allowed(&LogLevel::Info, &LogLevel::Info));
    assert!(!level_allowed(&LogLevel::Debug, &LogLevel::Info));
}

#[test]
fn test_rate_limit_window() {
    assert_eq!(rate_limit_window_ms(&LogLevel::Debug, "daemon", "check.emitted"), Some(30_000));
    assert_eq!(rate_limit_window_ms(&LogLevel::Trace, "overlay", "overlay.update"), Some(30_000));
    // only debug and trace events are limited
    assert_eq!(rate_limit_window_ms(&LogLevel::Info, "daemon", "check.emitted"), None);
    // unknown events are not limited
    assert_eq!(rate_limit_window_ms(&LogLevel::Debug, "daemon", "other"), None);
}

#[test]
fn test_is_sensitive_key() {
    assert!(is_sensitive_key("title"));
    assert!(is_sensitive_key("callId"));
    assert!(is_sensitive_key("url"));
    assert!(is_sensitive_key("eventId"));
    assert!(!is_sensitive_key("count"));
}

#[test]
fn test_mask_id() {
    assert_eq!(mask_id("abc-defg-hij"), "****-hij");
    assert_eq!(mask_id("abcd"), "****");
    assert_eq!(mask_id("  abc-defg-hij  "), "****-hij");
}

#[test]
fn test_mask_url() {
    assert_eq!(
        mask_url("https://meet.google.com/abc-defg-hij"),
        "https://meet.google.com\u{2026}/\u{2026}fg-hij"
    );
    assert_eq!(mask_url("https://meet.google.com"), "https://meet.google.com");
    assert_eq!(mask_url("meet.google.com/x"), "meet.google.com\u{2026}/\u{2026}x");
}

#[test]
fn test_mask_text_by_key() {
    assert_eq!(mask_text("title", "Team Standup"), "[redacted:12\u{2026}tandup]");
    assert_eq!(mask_text("callId", "abc-defg-hij"), "****-hij");
    assert_eq!(mask_text("other", "whatever"), "[redacted]");
}

#[test]
fn test_now_ms_is_recent() {
    // after 2020-01-01 in milliseconds
    assert!(now_ms() > 1_577_836_800_000);
}

#[test]
fn test_is_older_than() {
    assert!(is_older_than(0, 10_000, 5_000));
    assert!(!is_older_than(8_000, 10_000, 5_000));
    // a file modified in the future is never old
    assert!(!is_older_than(20_000, 10_000, 5_000));
}

#[test]
fn test_log_manager_disabled_drops_everything() {
    let mut manager = LogManager::new(&Settings::default(), "session".to_string());
    assert_eq!(manager.should_write_entry(LogLevel::Error, "rust", "daemon", "x", 1_000), None);
}

#[test]
fn test_log_manager_level_gate() {
    let mut manager = LogManager::new(&collecting_settings(LogLevel::Info), "session".to_string());
    assert_eq!(manager.should_write_entry(LogLevel::Debug, "rust", "m", "e", 1_000), None);
    assert_eq!(manager.should_write_entry(LogLevel::Warn, "rust", "m", "e", 1_000), Some(0));
}

#[test]
fn test_log_manager_rate_limits_repeats() {
    let mut manager = LogManager::new(&collecting_settings(LogLevel::Debug), "s".to_string());

    // first occurrence passes
    assert_eq!(
        manager.should_write_entry(LogLevel::Debug, "rust", "daemon", "check.emitted", 1_000),
        Some(0)
    );
    // two repeats inside the window are swallowed
    assert_eq!(
        manager.should_write_entry(LogLevel::Debug, "rust", "daemon", "check.emitted", 2_000),
        None
    );
    assert_eq!(
        manager.should_write_entry(LogLevel::Debug, "rust", "daemon", "check.emitted", 3_000),
        None
    );
    // after the window the next one passes and reports the two swallowed
    assert_eq!(
        manager.should_write_entry(LogLevel::Debug, "rust", "daemon", "check.emitted", 40_000),
        Some(2)
    );
}

#[test]
fn test_log_manager_configure() {
    let mut manager = LogManager::new(&Settings::default(), "s".to_string());
    assert!(!manager.enabled);
    manager.configure(&collecting_settings(LogLevel::Trace));
    assert!(manager.enabled);
    assert_eq!(manager.level, LogLevel::Trace);
}

#[test]
fn test_should_cleanup_interval() {
    let mut manager = LogManager::new(&Settings::default(), "s".to_string());
    let t0: u64 = 1_700_000_000_000;
    // the epoch clock is far past the six-hour interval, so the first sweep runs
    assert!(manager.should_cleanup(t0));
    // within the interval nothing runs
    assert!(!manager.should_cleanup(t0 + 1_000));
    // after the interval the next sweep runs
    assert!(manager.should_cleanup(t0 + 7 * 60 * 60 * 1_000));
}
