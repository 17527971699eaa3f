use meetcat::daemon::{DaemonState, Meeting};
use meetcat::scheduler::JoinScheduler;
use meetcat::settings::Settings;

const NOW_MS: i64 = 1_700_000_000_000;

fn create_test_meeting(call_id: &str, title: &str, starts_in_minutes: i64) -> Meeting {
    Meeting {
        call_id: call_id.to_string(),
        url: format!("https://meet.google.com/{}", call_id),
        title: title.to_string(),
        display_time: "10:00 AM".to_string(),
        begin_time_ms: NOW_MS + starts_in_minutes * 60_000,
        end_time_ms: NOW_MS + (starts_in_minutes + 60) * 60_000,
        event_id: None,
        starts_in_minutes,
    }
}

#[test]
fn test_reschedule_arms_next_trigger() {
    let mut state = DaemonState::default();
    state.update_meetings(vec![create_test_meeting("abc", "Standup", 10)]);
    let settings = Settings { join_before_minutes: 1, ..Settings::default() };

    let mut scheduler = JoinScheduler::new();
    let armed = scheduler.reschedule(&state, &settings, NOW_MS).unwrap();
    assert_eq!(armed.meeting.call_id, "abc");
    assert_eq!(armed.delay_ms, 9 * 60 * 1000);
    assert_eq!(armed.generation, 1);
}

#[test]
fn test_reschedule_with_no_candidate_arms_nothing() {
    let state = DaemonState::default();
    let settings = Settings::default();

    let mut scheduler = JoinScheduler::new();
    assert!(scheduler.reschedule(&state, &settings, NOW_MS).is_none());
}

#[test]
fn test_second_reschedule_wins() {
    let mut state = DaemonState::default();
    let settings = Settings { join_before_minutes: 1, ..Settings::default() };
    let mut scheduler = JoinScheduler::new();

    // first list arms a trigger for "old"
    state.update_meetings(vec![create_test_meeting("old", "First List", 10)]);
    let first = scheduler.reschedule(&state, &settings, NOW_MS).unwrap();

    // the list is replaced and a second reschedule supersedes the first
    state.update_meetings(vec![create_test_meeting("new", "Second List", 20)]);
    let second = scheduler.reschedule(&state, &settings, NOW_MS).unwrap();
    assert_eq!(second.meeting.call_id, "new");

    // the first trigger's timer fires late: its generation is stale, nothing happens
    let action = scheduler.on_timer_fired(first.generation, &mut state);
    assert!(action.is_none());
    assert!(state.get_joined_meetings().is_empty());

    // the second trigger's timer fires: the meeting is marked joined first
    let action = scheduler.on_timer_fired(second.generation, &mut state).unwrap();
    assert_eq!(action.call_id, "new");
    assert_eq!(action.url, "https://meet.google.com/new");
    assert_eq!(state.get_joined_meetings(), vec!["new".to_string()]);
}

#[test]
fn test_fired_trigger_is_consumed() {
    let mut state = DaemonState::default();
    state.update_meetings(vec![create_test_meeting("abc", "Standup", 10)]);
    let settings = Settings { join_before_minutes: 1, ..Settings::default() };
    let mut scheduler = JoinScheduler::new();

    let armed = scheduler.reschedule(&state, &settings, NOW_MS).unwrap();
    assert!(scheduler.on_timer_fired(armed.generation, &mut state).is_some());
    // the slot is empty now: the same generation does nothing the second time
    assert!(scheduler.on_timer_fired(armed.generation, &mut state).is_none());
}

#[test]
fn test_reschedule_after_join_picks_next_candidate() {
    let mut state = DaemonState::default();
    state.update_meetings(vec![
        create_test_meeting("a", "First", 5),
        create_test_meeting("b", "Second", 10),
    ]);
    let settings = Settings { join_before_minutes: 1, ..Settings::default() };
    let mut scheduler = JoinScheduler::new();

    let armed = scheduler.reschedule(&state, &settings, NOW_MS).unwrap();
    assert_eq!(armed.meeting.call_id, "a");

    // the trigger fires and marks "a" joined; the follow-up reschedule picks "b"
    scheduler.on_timer_fired(armed.generation, &mut state).unwrap();
    let armed = scheduler.reschedule(&state, &settings, NOW_MS).unwrap();
    assert_eq!(armed.meeting.call_id, "b");

    // the settings snapshot travels with the armed trigger
    assert_eq!(armed.settings.join_before_minutes, 1);
}
