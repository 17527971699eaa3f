use meetcat::daemon::Meeting;
use meetcat::settings::{TauriSettings, TrayDisplayMode};
use meetcat::tray::{build_tray_title, format_countdown, truncate_title};

fn create_test_meeting(title: &str, display_time: &str, starts_in_minutes: i64) -> Meeting {
    Meeting {
        call_id: "abc123".to_string(),
        url: "https://meet.google.com/abc123".to_string(),
        title: title.to_string(),
        display_time: display_time.to_string(),
        begin_time_ms: 0,
        end_time_ms: 0,
        event_id: None,
        starts_in_minutes,
    }
}

#[test]
fn test_truncate_title_short() {
    let title = "Short Title";
    let result = truncate_title(title, 25);
    assert_eq!(result, "Short Title");
}

#[test]
fn test_truncate_title_exact_length() {
    let title = "Exactly Twenty Five Chars"; // 25 chars
    let result = truncate_title(title, 25);
    assert_eq!(result, title);
}

#[test]
fn test_truncate_title_long() {
    let title = "This Is A Very Long Meeting Title That Should Be Truncated";
    let result = truncate_title(title, 25);
    assert_eq!(result, "This Is A Very Long Me...");
    assert_eq!(result.len(), 25);
}

#[test]
fn test_truncate_title_with_unicode() {
    let title = "会议同步会";
    let result = truncate_title(title, 4);
    assert_eq!(result, "会...");
}

#[test]
fn test_truncate_title_minimum() {
    let title = "ABCDEFGHIJ";
    let result = truncate_title(title, 5);
    assert_eq!(result, "AB...");
}

#[test]
fn test_format_countdown() {
    assert_eq!(format_countdown(5), "in 5m");
    assert_eq!(format_countdown(0), "now");
    assert_eq!(format_countdown(-3), "3m ago");
}

#[test]
fn test_build_tray_title_icon_only() {
    let meeting = create_test_meeting("Design Sync", "10:30 AM", 5);
    let settings = TauriSettings {
        tray_display_mode: TrayDisplayMode::IconOnly,
        ..TauriSettings::default()
    };

    assert_eq!(build_tray_title(Some(&meeting), &settings), "");
}

#[test]
fn test_build_tray_title_time_with_name() {
    let meeting = create_test_meeting("Design Sync", "10:30 AM", 5);
    let settings = TauriSettings {
        tray_display_mode: TrayDisplayMode::IconWithTime,
        tray_show_meeting_title: true,
        ..TauriSettings::default()
    };

    assert_eq!(build_tray_title(Some(&meeting), &settings), "10:30 AM - Design Sync");
}

#[test]
fn test_build_tray_title_countdown_without_name() {
    let meeting = create_test_meeting("Design Sync", "10:30 AM", -2);
    let settings = TauriSettings {
        tray_display_mode: TrayDisplayMode::IconWithCountdown,
        tray_show_meeting_title: false,
        ..TauriSettings::default()
    };

    assert_eq!(build_tray_title(Some(&meeting), &settings), "2m ago");
}

#[test]
fn test_build_tray_title_no_meeting() {
    let settings = TauriSettings {
        tray_display_mode: TrayDisplayMode::IconWithTime,
        tray_show_meeting_title: true,
        ..TauriSettings::default()
    };

    assert_eq!(build_tray_title(None, &settings), "");
}
