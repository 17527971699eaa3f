use meetcat::daemon::{DaemonState, Meeting};
use meetcat::settings::Settings;

/// A fixed "now" for the tests, in milliseconds since the epoch.
const NOW_MS: i64 = 1_700_000_000_000;

fn create_test_meeting(call_id: &str, title: &str, starts_in_minutes: i64) -> Meeting {
    Meeting {
        call_id: call_id.to_string(),
        url: format!("https://meet.google.com/{}", call_id),
        title: title.to_string(),
        display_time: "10:00 AM".to_string(),
        begin_time_ms: NOW_MS + starts_in_minutes * 60_000,
        end_time_ms: NOW_MS + (starts_in_minutes + 60) * 60_000,
        event_id: Some("event123".to_string()),
        starts_in_minutes,
    }
}

#[test]
fn test_daemon_state() {
    let mut state = DaemonState::default();
    assert!(!state.is_running());

    state.start();
    assert!(state.is_running());

    state.stop();
    assert!(!state.is_running());
}

#[test]
fn test_joined_tracking() {
    let mut state = DaemonState::default();

    state.mark_joined("abc-defg-hij");
    assert!(state.get_joined_meetings().contains(&"abc-defg-hij".to_string()));

    state.clear_joined();
    assert!(state.get_joined_meetings().is_empty());
}

#[test]
fn test_update_meetings() {
    let mut state = DaemonState::default();
    assert!(state.get_meetings().is_empty());

    let meetings = vec![
        create_test_meeting("abc-defg-hij", "Team Standup", 5),
        create_test_meeting("xyz-uvwx-rst", "1:1 Meeting", 30),
    ];
    state.update_meetings(meetings);

    assert_eq!(state.get_meetings().len(), 2);
}

#[test]
fn test_get_next_meeting_returns_earliest() {
    let mut state = DaemonState::default();
    let meetings = vec![
        create_test_meeting("later", "Later Meeting", 30),
        create_test_meeting("soon", "Soon Meeting", 5),
        create_test_meeting("soonest", "Soonest Meeting", 2),
    ];
    state.update_meetings(meetings);

    let next = state.get_next_meeting(NOW_MS);
    assert!(next.is_some());
    assert_eq!(next.unwrap().call_id, "soonest");
}

#[test]
fn test_get_next_meeting_excludes_joined() {
    let mut state = DaemonState::default();
    let meetings = vec![
        create_test_meeting("first", "First Meeting", 2),
        create_test_meeting("second", "Second Meeting", 5),
    ];
    state.update_meetings(meetings);
    state.mark_joined("first");

    let next = state.get_next_meeting(NOW_MS);
    assert!(next.is_some());
    assert_eq!(next.unwrap().call_id, "second");
}

#[test]
fn test_get_next_meeting_excludes_old_meetings() {
    let mut state = DaemonState::default();
    // Meeting that started 10 minutes ago (beyond the 5-minute grace period)
    let meetings = vec![create_test_meeting("old", "Old Meeting", -10)];
    state.update_meetings(meetings);

    let next = state.get_next_meeting(NOW_MS);
    assert!(next.is_none());
}

#[test]
fn test_should_join_now_within_window() {
    let mut state = DaemonState::default();
    // Meeting starting in 1 minute, with joinBeforeMinutes = 1
    let meetings = vec![create_test_meeting("abc", "Test Meeting", 1)];
    state.update_meetings(meetings);

    let settings = Settings { join_before_minutes: 1, ..Settings::default() };

    let should_join = state.should_join_now(&settings);
    assert!(should_join.is_some());
    assert_eq!(should_join.unwrap().call_id, "abc");
}

#[test]
fn test_should_join_now_not_yet() {
    let mut state = DaemonState::default();
    // Meeting starting in 10 minutes, with joinBeforeMinutes = 1
    let meetings = vec![create_test_meeting("abc", "Test Meeting", 10)];
    state.update_meetings(meetings);

    let settings = Settings { join_before_minutes: 1, ..Settings::default() };

    let should_join = state.should_join_now(&settings);
    assert!(should_join.is_none());
}

#[test]
fn test_should_join_now_respects_exclude_filters() {
    let mut state = DaemonState::default();
    let meetings = vec![
        create_test_meeting("skip", "1:1 with Manager", 1),
        create_test_meeting("join", "Team Standup", 2),
    ];
    state.update_meetings(meetings);

    let settings = Settings {
        join_before_minutes: 5,
        title_exclude_filters: vec!["1:1".to_string()],
        ..Settings::default()
    };

    let should_join = state.should_join_now(&settings);
    assert!(should_join.is_some());
    assert_eq!(should_join.unwrap().call_id, "join");
}

#[test]
fn test_should_join_now_after_start_within_grace() {
    let mut state = DaemonState::default();
    // Meeting that started 5 minutes ago (within grace period)
    let meetings = vec![create_test_meeting("abc", "Test Meeting", -5)];
    state.update_meetings(meetings);

    let settings = Settings { join_before_minutes: 1, ..Settings::default() };

    let should_join = state.should_join_now(&settings);
    assert!(should_join.is_some());
}

#[test]
fn test_should_join_now_too_late() {
    let mut state = DaemonState::default();
    // Meeting that started 35 minutes ago (beyond grace period)
    let meetings = vec![create_test_meeting("abc", "Test Meeting", -35)];
    state.update_meetings(meetings);

    let settings = Settings::default();

    let should_join = state.should_join_now(&settings);
    assert!(should_join.is_none());
}

#[test]
fn test_should_join_now_respects_max_after_start() {
    let mut state = DaemonState::default();
    let meetings = vec![create_test_meeting("abc", "Test Meeting", -5)];
    state.update_meetings(meetings);

    let settings = Settings { max_minutes_after_start: 3, ..Settings::default() };

    let should_join = state.should_join_now(&settings);
    assert!(should_join.is_none());
}

#[test]
fn test_calculate_next_trigger_future_meeting() {
    let mut state = DaemonState::default();
    // Meeting starting in 10 minutes
    let meetings = vec![create_test_meeting("abc", "Test Meeting", 10)];
    state.update_meetings(meetings);

    let settings = Settings { join_before_minutes: 1, ..Settings::default() };

    let trigger = state.calculate_next_trigger(&settings, NOW_MS);
    assert!(trigger.is_some());
    let trigger = trigger.unwrap();
    assert_eq!(trigger.meeting.call_id, "abc");
    // Should trigger in about 9 minutes (10 - 1 = 9 minutes before)
    assert!(trigger.delay_ms > 8 * 60 * 1000); // > 8 minutes
    assert!(trigger.delay_ms < 10 * 60 * 1000); // < 10 minutes
}

#[test]
fn test_calculate_next_trigger_immediate() {
    let mut state = DaemonState::default();
    // Meeting that started 5 minutes ago
    let meetings = vec![create_test_meeting("abc", "Test Meeting", -5)];
    state.update_meetings(meetings);

    let settings = Settings { join_before_minutes: 1, ..Settings::default() };

    let trigger = state.calculate_next_trigger(&settings, NOW_MS);
    assert!(trigger.is_some());
    // Should trigger immediately
    assert_eq!(trigger.unwrap().delay_ms, 0);
}

#[test]
fn test_calculate_next_trigger_excludes_joined() {
    let mut state = DaemonState::default();
    let meetings = vec![
        create_test_meeting("joined", "Already Joined", 5),
        create_test_meeting("pending", "Pending Meeting", 10),
    ];
    state.update_meetings(meetings);
    state.mark_joined("joined");

    let settings = Settings::default();

    let trigger = state.calculate_next_trigger(&settings, NOW_MS);
    assert!(trigger.is_some());
    assert_eq!(trigger.unwrap().meeting.call_id, "pending");
}

#[test]
fn test_calculate_next_trigger_respects_exclude_filters() {
    let mut state = DaemonState::default();
    let meetings = vec![
        create_test_meeting("optional", "Optional: Team Sync", 5),
        create_test_meeting("required", "Sprint Planning", 10),
    ];
    state.update_meetings(meetings);

    let settings = Settings {
        title_exclude_filters: vec!["Optional".to_string()],
        ..Settings::default()
    };

    let trigger = state.calculate_next_trigger(&settings, NOW_MS);
    assert!(trigger.is_some());
    assert_eq!(trigger.unwrap().meeting.call_id, "required");
}

#[test]
fn test_calculate_next_trigger_too_late() {
    let mut state = DaemonState::default();
    // Meeting that started 35 minutes ago, default max_minutes_after_start = 10
    let meetings = vec![create_test_meeting("abc", "Test Meeting", -35)];
    state.update_meetings(meetings);

    let settings = Settings::default();

    let trigger = state.calculate_next_trigger(&settings, NOW_MS);
    assert!(trigger.is_none());
}

#[test]
fn test_calculate_next_trigger_picks_smallest_delay() {
    let mut state = DaemonState::default();
    let meetings = vec![
        create_test_meeting("late", "Later", 20),
        create_test_meeting("early", "Earlier", 7),
        create_test_meeting("mid", "Middle", 12),
    ];
    state.update_meetings(meetings);

    let settings = Settings { join_before_minutes: 1, ..Settings::default() };

    let trigger = state.calculate_next_trigger(&settings, NOW_MS).unwrap();
    assert_eq!(trigger.meeting.call_id, "early");
    assert_eq!(trigger.delay_ms, 6 * 60 * 1000);
}

#[test]
fn test_reset_restores_pre_join_result() {
    let mut state = DaemonState::default();
    let meetings = vec![
        create_test_meeting("a", "First", 5),
        create_test_meeting("b", "Second", 10),
    ];
    state.update_meetings(meetings);

    let settings = Settings::default();

    let before = state.calculate_next_trigger(&settings, NOW_MS).unwrap();
    state.mark_joined("a");
    state.mark_joined("b");
    assert!(state.calculate_next_trigger(&settings, NOW_MS).is_none());

    state.clear_joined();
    let after = state.calculate_next_trigger(&settings, NOW_MS).unwrap();
    assert_eq!(after.meeting.call_id, before.meeting.call_id);
    assert_eq!(after.delay_ms, before.delay_ms);
}

#[test]
fn test_mark_joined_idempotent() {
    let mut once = DaemonState::default();
    once.mark_joined("abc");

    let mut twice = DaemonState::default();
    twice.mark_joined("abc");
    twice.mark_joined("abc");

    assert_eq!(once.get_joined_meetings(), twice.get_joined_meetings());
}

#[test]
fn test_handle_meeting_closed_records_suppression() {
    let mut state = DaemonState::default();
    // Meeting started 2 minutes ago; trigger time lies in the past
    let meetings = vec![create_test_meeting("abc", "Test Meeting", -2)];
    state.update_meetings(meetings);

    let settings = Settings { join_before_minutes: 1, ..Settings::default() };

    // closed after the trigger time: suppression is recorded
    let matched = state.handle_meeting_closed("abc", NOW_MS, &settings);
    assert!(matched);
    assert_eq!(state.get_suppressed_meetings(), vec!["abc".to_string()]);

    // an unknown id does not match
    let matched = state.handle_meeting_closed("nope", NOW_MS, &settings);
    assert!(!matched);
    assert_eq!(state.get_suppressed_meetings(), vec!["abc".to_string()]);
}

#[test]
fn test_handle_meeting_closed_before_trigger_time() {
    let mut state = DaemonState::default();
    // Meeting starts in 30 minutes; its trigger time lies well ahead
    let meetings = vec![create_test_meeting("abc", "Test Meeting", 30)];
    state.update_meetings(meetings);

    let settings = Settings { join_before_minutes: 1, ..Settings::default() };

    let matched = state.handle_meeting_closed("abc", NOW_MS, &settings);
    assert!(matched);
    assert!(state.get_suppressed_meetings().is_empty());
}
