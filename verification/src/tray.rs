//! Pure computations behind the tray display: title truncation and the
//! countdown / title strings shown beside the icon.

use vstd::prelude::*;
use vstd::string::StrSliceExecFns;
use vstd::string::StringExecFns;
use crate::daemon::Meeting;
use crate::settings::{TauriSettings, TrayDisplayMode};
use crate::text::dec_digits;

verus! {

/// A title cut to at most `max` characters, the last three replaced by dots
/// when something had to go.
pub open spec fn spec_truncate(t: Seq<char>, max: int) -> Seq<char> {
    if max == 0 {
        Seq::empty()
    } else if t.len() <= max {
        t
    } else if max <= 3 {
        t.subrange(0, max)
    } else {
        t.subrange(0, max - 3) + seq!['.', '.', '.']
    }
}

/// Truncate a title to at most `max_len` characters, ending in `...` when it
/// was longer.
pub fn truncate_title(title: &str, max_len: usize) -> (r: String)
    ensures
        r@ == spec_truncate(title@, max_len as int),
{
    if max_len == 0 {
        let r = String::new();
        proof {
            assert(r@ =~= spec_truncate(title@, max_len as int));
        }
        return r;
    }
    let len = title.unicode_len();
    if len <= max_len {
        return String::from_str(title);
    }
    if max_len <= 3 {
        let cut = title.substring_char(0, max_len);
        return String::from_str(cut);
    }
    let cut = title.substring_char(0, max_len - 3);
    let mut r = String::from_str(cut);
    r.append("...");
    proof {
        reveal_strlit("...");
        assert("..."@ =~= seq!['.', '.', '.']);
        assert(r@ =~= spec_truncate(title@, max_len as int));
    }
    r
}

/// The countdown text: `in Nm` before start, `now` at start, `Nm ago` after.
pub open spec fn spec_countdown(m: int) -> Seq<char> {
    if m > 0 {
        seq!['i', 'n', ' '] + dec_digits(m) + seq!['m']
    } else if m == 0 {
        seq!['n', 'o', 'w']
    } else {
        dec_digits(-m) + seq!['m', ' ', 'a', 'g', 'o']
    }
}

/// Render the countdown for a meeting `starts_in_minutes` away.
pub fn format_countdown(starts_in_minutes: i64) -> (r: String)
    requires
        starts_in_minutes > i64::MIN,
    ensures
        r@ == spec_countdown(starts_in_minutes as int),
{
    if starts_in_minutes > 0 {
        let mut r = String::from_str("in ");
        let digits = crate::text::u64_to_dec(starts_in_minutes as u64);
        r.append(digits.as_str());
        r.append("m");
        proof {
            reveal_strlit("in ");
            reveal_strlit("m");
            assert(r@ =~= spec_countdown(starts_in_minutes as int));
        }
        r
    } else if starts_in_minutes == 0 {
        let r = String::from_str("now");
        proof {
            reveal_strlit("now");
            assert(r@ =~= spec_countdown(0));
        }
        r
    } else {
        let mut r = crate::text::u64_to_dec((-starts_in_minutes) as u64);
        r.append("m ago");
        proof {
            reveal_strlit("m ago");
            assert(r@ =~= spec_countdown(starts_in_minutes as int));
        }
        r
    }
}

/// The text shown beside the tray icon: nothing in icon-only mode or without
/// a meeting; otherwise the display time or the countdown, with the
/// truncated meeting title appended when asked for.
pub open spec fn spec_tray_title(m: Option<Meeting>, s: TauriSettings) -> Seq<char> {
    if s.tray_display_mode == TrayDisplayMode::IconOnly {
        Seq::empty()
    } else {
        match m {
            Option::None => Seq::empty(),
            Option::Some(m) => {
                let base = if s.tray_display_mode == TrayDisplayMode::IconWithTime {
                    m.display_time@
                } else {
                    spec_countdown(m.starts_in_minutes as int)
                };
                if s.tray_show_meeting_title {
                    let cut = spec_truncate(m.title@, 24);
                    if cut.len() == 0 {
                        base
                    } else {
                        base + seq![' ', '-', ' '] + cut
                    }
                } else {
                    base
                }
            },
        }
    }
}

/// Build the tray title for the given meeting and tray preferences.
pub fn build_tray_title(meeting: Option<&Meeting>, settings: &TauriSettings) -> (r: String)
    requires
        (matches!(settings.tray_display_mode, TrayDisplayMode::IconWithCountdown)
            && meeting is Some) ==> meeting.unwrap().starts_in_minutes > i64::MIN,
    ensures
        ({
            let mv = match meeting {
                Option::None => Option::<Meeting>::None,
                Option::Some(m) => Option::Some(*m),
            };
            r@ == spec_tray_title(mv, *settings)
        }),
{
    if matches!(settings.tray_display_mode, TrayDisplayMode::IconOnly) {
        return String::new();
    }
    let m = match meeting {
        Option::Some(m) => m,
        Option::None => {
            return String::new();
        },
    };
    let base: String = match settings.tray_display_mode {
        TrayDisplayMode::IconWithTime => String::from_str(m.display_time.as_str()),
        TrayDisplayMode::IconWithCountdown => format_countdown(m.starts_in_minutes),
        TrayDisplayMode::IconOnly => String::new(),
    };
    if settings.tray_show_meeting_title {
        let cut = truncate_title(m.title.as_str(), 24);
        if cut.as_str().unicode_len() == 0 {
            return base;
        }
        let mut r = base;
        r.append(" - ");
        r.append(cut.as_str());
        proof {
            reveal_strlit(" - ");
            let mv = Option::Some(*m);
            assert(r@ =~= spec_tray_title(mv, *settings));
        }
        return r;
    }
    base
}

} // verus!
