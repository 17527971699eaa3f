//! User preferences: timing of the join window, title filters, media and
//! tray options, and the log configuration.

use vstd::prelude::*;
use vstd::string::StringExecFns;

verus! {

/// Fallback cadence, in seconds, for asking the meeting-list reporter to
/// refresh when no preferences are available.
pub const TAURI_DEFAULT_CHECK_INTERVAL_SECONDS: u32 = 30;

/// Severity of a log event, most severe first.
#[derive(Debug, Clone, Copy, PartialEq, Eq, Structural)]
pub enum LogLevel {
    Error,
    Warn,
    Info,
    Debug,
    Trace,
}

/// Whether a media device starts muted.
#[derive(Debug, Clone, Copy, PartialEq, Eq, Structural)]
pub enum MediaState {
    Muted,
    Unmuted,
}

/// What the tray icon shows beside the icon itself.
#[derive(Debug, Clone, Copy, PartialEq, Eq, Structural)]
pub enum TrayDisplayMode {
    IconOnly,
    IconWithTime,
    IconWithCountdown,
}

impl Default for LogLevel {
    fn default() -> (r: Self)
        ensures
            r == LogLevel::Info,
    {
        LogLevel::Info
    }
}

impl Default for MediaState {
    fn default() -> (r: Self)
        ensures
            r == MediaState::Muted,
    {
        MediaState::Muted
    }
}

impl Default for TrayDisplayMode {
    fn default() -> (r: Self)
        ensures
            r == TrayDisplayMode::IconOnly,
    {
        TrayDisplayMode::IconOnly
    }
}

/// Desktop-shell specific preferences.
#[derive(Debug, Clone, Copy, PartialEq, Eq, Structural)]
pub struct TauriSettings {
    pub quit_to_hide: bool,
    pub start_at_login: bool,
    pub show_tray_icon: bool,
    pub tray_display_mode: TrayDisplayMode,
    pub tray_show_meeting_title: bool,
    pub log_collection_enabled: bool,
    pub log_level: LogLevel,
}

/// The default desktop-shell preferences.
pub open spec fn tauri_defaults() -> TauriSettings {
    TauriSettings {
        quit_to_hide: true,
        start_at_login: false,
        show_tray_icon: true,
        tray_display_mode: TrayDisplayMode::IconOnly,
        tray_show_meeting_title: false,
        log_collection_enabled: false,
        log_level: LogLevel::Info,
    }
}

impl Default for TauriSettings {
    fn default() -> (r: Self)
        ensures
            r == tauri_defaults(),
    {
        TauriSettings {
            quit_to_hide: default_quit_to_hide(),
            start_at_login: default_start_at_login(),
            show_tray_icon: default_show_tray_icon(),
            tray_display_mode: default_tray_display_mode(),
            tray_show_meeting_title: default_tray_show_meeting_title(),
            log_collection_enabled: false,
            log_level: LogLevel::Info,
        }
    }
}

/// The user's preferences.
#[derive(Debug)]
pub struct Settings {
    pub check_interval_seconds: u32,
    pub join_before_minutes: u32,
    pub max_minutes_after_start: u32,
    pub auto_click_join: bool,
    pub join_countdown_seconds: u32,
    pub title_exclude_filters: Vec<String>,
    pub default_mic_state: MediaState,
    pub default_camera_state: MediaState,
    pub show_notifications: bool,
    pub show_countdown_overlay: bool,
    pub tauri: Option<TauriSettings>,
}

/// The mathematical content of a preferences snapshot.
pub ghost struct SettingsV {
    pub check_interval_seconds: u32,
    pub join_before_minutes: u32,
    pub max_minutes_after_start: u32,
    pub auto_click_join: bool,
    pub join_countdown_seconds: u32,
    pub title_exclude_filters: Seq<Seq<char>>,
    pub default_mic_state: MediaState,
    pub default_camera_state: MediaState,
    pub show_notifications: bool,
    pub show_countdown_overlay: bool,
    pub tauri: Option<TauriSettings>,
}

impl View for Settings {
    type V = SettingsV;

    open spec fn view(&self) -> SettingsV {
        SettingsV {
            check_interval_seconds: self.check_interval_seconds,
            join_before_minutes: self.join_before_minutes,
            max_minutes_after_start: self.max_minutes_after_start,
            auto_click_join: self.auto_click_join,
            join_countdown_seconds: self.join_countdown_seconds,
            title_exclude_filters: self.title_exclude_filters.deep_view(),
            default_mic_state: self.default_mic_state,
            default_camera_state: self.default_camera_state,
            show_notifications: self.show_notifications,
            show_countdown_overlay: self.show_countdown_overlay,
            tauri: self.tauri,
        }
    }
}

impl Clone for Settings {
    fn clone(&self) -> (r: Self)
        ensures
            r@ == self@,
    {
        let r = Settings {
            check_interval_seconds: self.check_interval_seconds,
            join_before_minutes: self.join_before_minutes,
            max_minutes_after_start: self.max_minutes_after_start,
            auto_click_join: self.auto_click_join,
            join_countdown_seconds: self.join_countdown_seconds,
            title_exclude_filters: self.title_exclude_filters.clone(),
            default_mic_state: self.default_mic_state,
            default_camera_state: self.default_camera_state,
            show_notifications: self.show_notifications,
            show_countdown_overlay: self.show_countdown_overlay,
            tauri: self.tauri,
        };
        proof {
            assert(r.title_exclude_filters.deep_view() =~= self.title_exclude_filters.deep_view());
        }
        r
    }
}

impl Default for Settings {
    fn default() -> (r: Self)
        ensures
            r.check_interval_seconds == 30,
            r.join_before_minutes == 1,
            r.max_minutes_after_start == 10,
            r.auto_click_join == true,
            r.join_countdown_seconds == 20,
            r.title_exclude_filters@.len() == 0,
            r.default_mic_state == MediaState::Muted,
            r.default_camera_state == MediaState::Muted,
            r.show_notifications == true,
            r.show_countdown_overlay == true,
            r.tauri == Some(tauri_defaults()),
    {
        Settings {
            check_interval_seconds: default_check_interval(),
            join_before_minutes: default_join_before(),
            max_minutes_after_start: default_max_minutes_after_start(),
            auto_click_join: default_auto_click_join(),
            join_countdown_seconds: default_countdown(),
            title_exclude_filters: default_title_exclude_filters(),
            default_mic_state: default_mic_state(),
            default_camera_state: default_camera_state(),
            show_notifications: default_show_notifications(),
            show_countdown_overlay: default_show_countdown_overlay(),
            tauri: Some(TauriSettings::default()),
        }
    }
}

/// The name, as a one-element list when `c` holds, else nothing.
pub open spec fn key_if(c: bool, name: Seq<char>) -> Seq<Seq<char>> {
    if c {
        seq![name]
    } else {
        Seq::empty()
    }
}

/// The keys of the preferences that differ between two snapshots, in the
/// fixed reporting order.
/// The changed keys among the core preferences.
pub open spec fn spec_changed_core(b: SettingsV, a: SettingsV) -> Seq<Seq<char>> {
    key_if(b.check_interval_seconds != a.check_interval_seconds, "checkIntervalSeconds"@) + key_if(
        b.join_before_minutes != a.join_before_minutes,
        "joinBeforeMinutes"@,
    ) + key_if(b.max_minutes_after_start != a.max_minutes_after_start, "maxMinutesAfterStart"@)
        + key_if(b.auto_click_join != a.auto_click_join, "autoClickJoin"@) + key_if(
        b.join_countdown_seconds != a.join_countdown_seconds,
        "joinCountdownSeconds"@,
    ) + key_if(b.title_exclude_filters != a.title_exclude_filters, "titleExcludeFilters"@)
        + key_if(b.default_mic_state != a.default_mic_state, "defaultMicState"@) + key_if(
        b.default_camera_state != a.default_camera_state,
        "defaultCameraState"@,
    ) + key_if(b.show_countdown_overlay != a.show_countdown_overlay, "showCountdownOverlay"@)
}

/// The changed keys among the desktop-shell preferences.
pub open spec fn spec_changed_tauri(bt: TauriSettings, at: TauriSettings) -> Seq<Seq<char>> {
    key_if(bt.start_at_login != at.start_at_login, "tauri.startAtLogin"@) + key_if(
        bt.show_tray_icon != at.show_tray_icon,
        "tauri.showTrayIcon"@,
    ) + key_if(bt.tray_display_mode != at.tray_display_mode, "tauri.trayDisplayMode"@) + key_if(
        bt.tray_show_meeting_title != at.tray_show_meeting_title,
        "tauri.trayShowMeetingTitle"@,
    ) + key_if(bt.log_collection_enabled != at.log_collection_enabled, "tauri.logCollectionEnabled"@)
        + key_if(bt.log_level != at.log_level, "tauri.logLevel"@)
}

/// The desktop-shell preferences of a snapshot, or the defaults when unset.
pub open spec fn tauri_of(s: SettingsV) -> TauriSettings {
    match s.tauri {
        Option::Some(t) => t,
        Option::None => tauri_defaults(),
    }
}

pub open spec fn spec_changed_keys(b: SettingsV, a: SettingsV) -> Seq<Seq<char>> {
    spec_changed_core(b, a) + spec_changed_tauri(tauri_of(b), tauri_of(a))
}

/// Append `name` to the changed-key list when `changed` holds.
fn add_key(keys: &mut Vec<String>, name: &str, changed: bool)
    ensures
        final(keys).deep_view() == old(keys).deep_view() + key_if(changed, name@),
{
    if changed {
        keys.push(String::from_str(name));
    }
    proof {
        assert(keys.deep_view() =~= old(keys).deep_view() + key_if(changed, name@));
    }
}

/// The changed keys among the core preferences.
fn changed_keys_core(before: &Settings, after: &Settings) -> (r: Vec<String>)
    ensures
        r.deep_view() == spec_changed_core(before@, after@),
{
    let mut keys: Vec<String> = Vec::new();
    proof {
        assert(keys.deep_view() =~= Seq::<Seq<char>>::empty());
    }
    let c1 = before.check_interval_seconds != after.check_interval_seconds;
    let c6 = !crate::text::string_vecs_eq(
        &before.title_exclude_filters,
        &after.title_exclude_filters,
    );
    add_key(&mut keys, "checkIntervalSeconds", c1);
    add_key(&mut keys, "joinBeforeMinutes", before.join_before_minutes != after.join_before_minutes);
    add_key(
        &mut keys,
        "maxMinutesAfterStart",
        before.max_minutes_after_start != after.max_minutes_after_start,
    );
    add_key(&mut keys, "autoClickJoin", before.auto_click_join != after.auto_click_join);
    add_key(
        &mut keys,
        "joinCountdownSeconds",
        before.join_countdown_seconds != after.join_countdown_seconds,
    );
    add_key(&mut keys, "titleExcludeFilters", c6);
    add_key(&mut keys, "defaultMicState", before.default_mic_state != after.default_mic_state);
    add_key(
        &mut keys,
        "defaultCameraState",
        before.default_camera_state != after.default_camera_state,
    );
    add_key(
        &mut keys,
        "showCountdownOverlay",
        before.show_countdown_overlay != after.show_countdown_overlay,
    );
    proof {
        assert(Seq::<Seq<char>>::empty() + key_if(c1, "checkIntervalSeconds"@) =~= key_if(
            c1,
            "checkIntervalSeconds"@,
        ));
        assert(keys.deep_view() == spec_changed_core(before@, after@));
    }
    keys
}

/// The changed keys among the desktop-shell preferences.
fn changed_keys_tauri(bt: &TauriSettings, at: &TauriSettings) -> (r: Vec<String>)
    ensures
        r.deep_view() == spec_changed_tauri(*bt, *at),
{
    let mut keys: Vec<String> = Vec::new();
    proof {
        assert(keys.deep_view() =~= Seq::<Seq<char>>::empty());
    }
    let c10 = bt.start_at_login != at.start_at_login;
    add_key(&mut keys, "tauri.startAtLogin", c10);
    add_key(&mut keys, "tauri.showTrayIcon", bt.show_tray_icon != at.show_tray_icon);
    add_key(&mut keys, "tauri.trayDisplayMode", bt.tray_display_mode != at.tray_display_mode);
    add_key(
        &mut keys,
        "tauri.trayShowMeetingTitle",
        bt.tray_show_meeting_title != at.tray_show_meeting_title,
    );
    add_key(
        &mut keys,
        "tauri.logCollectionEnabled",
        bt.log_collection_enabled != at.log_collection_enabled,
    );
    add_key(&mut keys, "tauri.logLevel", bt.log_level != at.log_level);
    proof {
        assert(Seq::<Seq<char>>::empty() + key_if(c10, "tauri.startAtLogin"@) =~= key_if(
            c10,
            "tauri.startAtLogin"@,
        ));
        assert(keys.deep_view() == spec_changed_tauri(*bt, *at));
    }
    keys
}

/// The keys of the preferences that differ between `before` and `after`, in
/// the order the change log reports them.
pub fn settings_changed_keys(before: &Settings, after: &Settings) -> (r: Vec<String>)
    ensures
        r.deep_view() == spec_changed_keys(before@, after@),
{
    let bt = match &before.tauri {
        Option::Some(t) => *t,
        Option::None => TauriSettings::default(),
    };
    let at = match &after.tauri {
        Option::Some(t) => *t,
        Option::None => TauriSettings::default(),
    };
    let mut keys = changed_keys_core(before, after);
    let mut tail = changed_keys_tauri(&bt, &at);
    let ghost core_part = keys.deep_view();
    let ghost tauri_part = tail.deep_view();
    keys.append(&mut tail);
    proof {
        assert(keys.deep_view() =~= core_part + tauri_part);
    }
    keys
}

pub fn default_check_interval() -> (r: u32)
    ensures
        r == 30,
{
    30
}

pub fn default_join_before() -> (r: u32)
    ensures
        r == 1,
{
    1
}

pub fn default_max_minutes_after_start() -> (r: u32)
    ensures
        r == 10,
{
    10
}

pub fn default_auto_click_join() -> (r: bool)
    ensures
        r == true,
{
    true
}

pub fn default_countdown() -> (r: u32)
    ensures
        r == 20,
{
    20
}

pub fn default_title_exclude_filters() -> (r: Vec<String>)
    ensures
        r@.len() == 0,
{
    Vec::new()
}

pub fn default_mic_state() -> (r: MediaState)
    ensures
        r == MediaState::Muted,
{
    MediaState::Muted
}

pub fn default_camera_state() -> (r: MediaState)
    ensures
        r == MediaState::Muted,
{
    MediaState::Muted
}

pub fn default_show_notifications() -> (r: bool)
    ensures
        r == true,
{
    true
}

pub fn default_show_countdown_overlay() -> (r: bool)
    ensures
        r == true,
{
    true
}

pub fn default_quit_to_hide() -> (r: bool)
    ensures
        r == true,
{
    true
}

pub fn default_start_at_login() -> (r: bool)
    ensures
        r == false,
{
    false
}

pub fn default_show_tray_icon() -> (r: bool)
    ensures
        r == true,
{
    true
}

pub fn default_tray_display_mode() -> (r: TrayDisplayMode)
    ensures
        r == TrayDisplayMode::IconOnly,
{
    TrayDisplayMode::IconOnly
}

pub fn default_tray_show_meeting_title() -> (r: bool)
    ensures
        r == false,
{
    false
}

} // verus!
