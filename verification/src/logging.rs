//! Log collection decisions: which events pass the level gate, how repeats
//! are rate-limited, and how sensitive values are masked.
//!
//! Writing entries to disk stays with the caller; this module owns every
//! decision that leads up to a write.

use std::time::{Duration, SystemTime, UNIX_EPOCH};
use vstd::prelude::*;
use vstd::string::StrSliceExecFns;
use vstd::string::StringExecFns;
use crate::kvlist::{kv_map, kv_find_last, kv_insert};
use crate::settings::{LogLevel, Settings, SettingsV};
use crate::text::{spec_tail, spec_trimmed, tail_chars, trim_spaces, str_eq};

verus! {

/// How many days of log files are kept.
pub const LOG_RETENTION_DAYS: u64 = 3;

/// How often, in milliseconds, old log files are swept.
pub const CLEANUP_INTERVAL_MS: u64 = 6 * 60 * 60 * 1000;

/// Milliseconds since the Unix epoch.
///
/// Relies on `std::time::SystemTime::now`: the wall clock, read once; a
/// clock reading before the epoch comes back as zero.
#[verifier::external_body]
fn clock_epoch_ms() -> u64 {
    SystemTime::now()
        .duration_since(UNIX_EPOCH)
        .unwrap_or_else(|_| Duration::from_secs(0))
        .as_millis() as u64
}

/// The wall clock, in milliseconds since the Unix epoch.
pub fn now_ms() -> u64 {
    clock_epoch_ms()
}

/// A file modified at `modified_ms` is older than `max_age_ms` at `now_ms`.
pub fn is_older_than(modified_ms: u64, now_ms: u64, max_age_ms: u64) -> (r: bool)
    ensures
        r == (modified_ms <= now_ms && now_ms - modified_ms > max_age_ms),
{
    modified_ms <= now_ms && now_ms - modified_ms > max_age_ms
}

/// The rank of a level: the most severe is zero.
pub open spec fn spec_level_value(level: LogLevel) -> int {
    match level {
        LogLevel::Error => 0,
        LogLevel::Warn => 1,
        LogLevel::Info => 2,
        LogLevel::Debug => 3,
        LogLevel::Trace => 4,
    }
}

/// The rank of a level, for comparing against the configured threshold.
pub fn level_value(level: &LogLevel) -> (r: u8)
    ensures
        r as int == spec_level_value(*level),
{
    match level {
        LogLevel::Error => 0,
        LogLevel::Warn => 1,
        LogLevel::Info => 2,
        LogLevel::Debug => 3,
        LogLevel::Trace => 4,
    }
}

/// A level passes a threshold when it is at least as severe.
pub open spec fn spec_level_allowed(level: LogLevel, threshold: LogLevel) -> bool {
    spec_level_value(level) <= spec_level_value(threshold)
}

/// Whether `level` passes the configured `threshold`.
pub fn level_allowed(level: &LogLevel, threshold: &LogLevel) -> (r: bool)
    ensures
        r == spec_level_allowed(*level, *threshold),
{
    level_value(level) <= level_value(threshold)
}

/// The rate-limit window for chatty debug events, if any.
pub open spec fn spec_rate_window(level: LogLevel, module: Seq<char>, event: Seq<char>) -> Option<
    u64,
> {
    if level != LogLevel::Debug && level != LogLevel::Trace {
        None
    } else if module == "daemon"@ && event == "check.emitted"@ {
        Some(30000)
    } else if module == "meetings"@ && event == "meetings.updated"@ {
        Some(30000)
    } else if module == "join"@ && event == "trigger.none"@ {
        Some(30000)
    } else if module == "homepage"@ && event == "parse.result"@ {
        Some(30000)
    } else if module == "homepage"@ && event == "meetings.reported"@ {
        Some(30000)
    } else if module == "overlay"@ && event == "overlay.update"@ {
        Some(30000)
    } else {
        None
    }
}

/// The rate-limit window for an event, if it has one. Only debug and trace
/// events are ever limited.
pub fn rate_limit_window_ms(level: &LogLevel, module: &str, event: &str) -> (r: Option<u64>)
    ensures
        r == spec_rate_window(*level, module@, event@),
{
    match level {
        LogLevel::Debug => {},
        LogLevel::Trace => {},
        _ => {
            return None;
        },
    }
    if str_eq(module, "daemon") && str_eq(event, "check.emitted") {
        Some(30000)
    } else if str_eq(module, "meetings") && str_eq(event, "meetings.updated") {
        Some(30000)
    } else if str_eq(module, "join") && str_eq(event, "trigger.none") {
        Some(30000)
    } else if str_eq(module, "homepage") && str_eq(event, "parse.result") {
        Some(30000)
    } else if str_eq(module, "homepage") && str_eq(event, "meetings.reported") {
        Some(30000)
    } else if str_eq(module, "overlay") && str_eq(event, "overlay.update") {
        Some(30000)
    } else {
        None
    }
}

/// The context keys whose values are masked before an entry is written.
pub open spec fn spec_is_sensitive_key(k: Seq<char>) -> bool {
    k == "title"@ || k == "callId"@ || k == "url"@ || k == "eventId"@
}

/// Whether a context key carries a value that must be masked.
pub fn is_sensitive_key(key: &str) -> (r: bool)
    ensures
        r == spec_is_sensitive_key(key@),
{
    str_eq(key, "title") || str_eq(key, "callId") || str_eq(key, "url") || str_eq(key, "eventId")
}

/// An id masked for the log: four stars, then the last four characters when
/// more than four remain after trimming.
pub open spec fn spec_mask_id(raw: Seq<char>) -> Seq<char> {
    let t = spec_trimmed(raw);
    if t.len() <= 4 {
        seq!['*', '*', '*', '*']
    } else {
        seq!['*', '*', '*', '*'] + spec_tail(t, 4)
    }
}

/// Mask an id, keeping only its last four characters.
pub fn mask_id(raw: &str) -> (r: String)
    ensures
        r@ == spec_mask_id(raw@),
{
    let t = trim_spaces(raw);
    let len = t.as_str().unicode_len();
    proof {
        reveal_strlit("****");
        assert("****"@ =~= seq!['*', '*', '*', '*']);
    }
    if len <= 4 {
        String::from_str("****")
    } else {
        let suffix = tail_chars(t.as_str(), 4);
        let mut r = String::from_str("****");
        r.append(suffix.as_str());
        r
    }
}

/// The path with every trailing slash removed.
pub open spec fn slashes_trimmed(p: Seq<char>) -> Seq<char>
    decreases p.len(),
{
    if p.len() > 0 && p.last() == '/' {
        slashes_trimmed(p.drop_last())
    } else {
        p
    }
}

/// Stripping trailing slashes keeps exactly the prefix up to the last
/// non-slash character.
proof fn lemma_slashes_trimmed(p: Seq<char>, e: int)
    requires
        0 <= e <= p.len(),
        forall|i: int| e <= i < p.len() ==> p[i] == '/',
        e > 0 ==> p[e - 1] != '/',
    ensures
        slashes_trimmed(p) == p.subrange(0, e),
    decreases p.len(),
{
    if p.len() == 0 {
        assert(p.subrange(0, 0) =~= p);
    } else if e == p.len() {
        assert(p.subrange(0, e) =~= p);
    } else {
        assert(p.drop_last() =~= p.subrange(0, p.len() - 1));
        lemma_slashes_trimmed(p.drop_last(), e);
        assert(p.drop_last().subrange(0, e) =~= p.subrange(0, e));
    }
}

/// What follows the last slash; everything when there is none.
pub open spec fn after_last_slash(p: Seq<char>) -> Seq<char>
    decreases p.len(),
{
    if p.len() == 0 {
        p
    } else if p.last() == '/' {
        Seq::empty()
    } else {
        after_last_slash(p.drop_last()).push(p.last())
    }
}

/// After the last slash sits exactly the suffix from the first position all
/// of whose characters are non-slashes.
proof fn lemma_after_last_slash(p: Seq<char>, k: int)
    requires
        0 <= k <= p.len(),
        forall|i: int| k <= i < p.len() ==> p[i] != '/',
        k > 0 ==> p[k - 1] == '/',
    ensures
        after_last_slash(p) == p.subrange(k, p.len() as int),
    decreases p.len(),
{
    if p.len() == 0 {
        assert(p.subrange(0, 0) =~= p);
    } else if k == p.len() {
        assert(p.last() == '/');
        assert(p.subrange(k, p.len() as int) =~= Seq::<char>::empty());
    } else {
        assert(p.last() != '/');
        assert(p.drop_last() =~= p.subrange(0, p.len() - 1));
        lemma_after_last_slash(p.drop_last(), k);
        assert(p.drop_last().subrange(k, p.len() - 1).push(p.last()) =~= p.subrange(
            k,
            p.len() as int,
        ));
    }
}

/// A URL masked for the log: the scheme and host stay; of the path only the
/// last six characters of its last non-empty segment remain.
pub open spec fn spec_mask_url(raw: Seq<char>) -> Seq<char> {
    let t = spec_trimmed(raw);
    let scheme_end = match crate::text::spec_find(t, "://"@) {
        Option::Some(i) => i + 3,
        Option::None => 0,
    };
    let scheme = t.subrange(0, scheme_end);
    let rest = t.subrange(scheme_end, t.len() as int);
    let host = match crate::text::spec_find_char(rest, '/') {
        Option::Some(j) => rest.subrange(0, j),
        Option::None => rest,
    };
    let path = match crate::text::spec_find_char(rest, '/') {
        Option::Some(j) => rest.subrange(j + 1, rest.len() as int),
        Option::None => Seq::<char>::empty(),
    };
    if path.len() == 0 {
        scheme + host
    } else {
        let stripped = slashes_trimmed(path);
        let seg = if stripped.len() == 0 {
            path
        } else {
            after_last_slash(stripped)
        };
        scheme + host + seq!['\u{2026}', '/', '\u{2026}'] + spec_tail(seg, 6)
    }
}

/// Mask a URL, keeping the scheme, the host and the tail of the last path
/// segment.
#[verifier::loop_isolation(false)]
pub fn mask_url(raw: &str) -> (r: String)
    ensures
        r@ == spec_mask_url(raw@),
{
    let t = trim_spaces(raw);
    let ts = t.as_str();
    let tlen = ts.unicode_len();
    proof {
        reveal_strlit("://");
    }
    let scheme_end: usize = match crate::text::find_sub(ts, "://") {
        Option::Some(i) => i + 3,
        Option::None => 0,
    };
    proof {
        assert(scheme_end <= tlen);
    }
    let scheme = ts.substring_char(0, scheme_end);
    let rest = ts.substring_char(scheme_end, tlen);
    let rlen = rest.unicode_len();
    let (host, path) = match crate::text::find_char(rest, '/') {
        Option::Some(j) => (rest.substring_char(0, j), rest.substring_char(j + 1, rlen)),
        Option::None => (rest, ""),
    };
    proof {
        reveal_strlit("");
        assert(""@ =~= Seq::<char>::empty());
    }
    let plen = path.unicode_len();
    if plen == 0 {
        let mut r = String::from_str(scheme);
        r.append(host);
        return r;
    }
    // strip trailing slashes from the path
    let mut e: usize = plen;
    while e > 0 && path.get_char(e - 1) == '/'
        invariant
            e <= plen,
            forall|i: int| e <= i < plen ==> path@[i] == '/',
        decreases e,
    {
        e = e - 1;
    }
    proof {
        lemma_slashes_trimmed(path@, e as int);
    }
    let seg: &str;
    if e == 0 {
        proof {
            assert(path@.subrange(0, 0) =~= Seq::<char>::empty());
        }
        seg = path;
    } else {
        // the segment holding the last non-slash character
        let mut k: usize = e;
        while k > 0 && path.get_char(k - 1) != '/'
            invariant
                k <= e,
                forall|i: int| k <= i < e ==> path@[i] != '/',
            decreases k,
        {
            k = k - 1;
        }
        proof {
            assert(slashes_trimmed(path@) == path@.subrange(0, e as int));
            assert forall|i: int| k <= i < path@.subrange(0, e as int).len() implies path@.subrange(
                0,
                e as int,
            )[i] != '/' by {
                assert(path@.subrange(0, e as int)[i] == path@[i]);
            }
            if k > 0 {
                assert(path@.subrange(0, e as int)[k - 1] == path@[k as int - 1]);
            }
            lemma_after_last_slash(path@.subrange(0, e as int), k as int);
            assert(path@.subrange(0, e as int).subrange(k as int, e as int) =~= path@.subrange(
                k as int,
                e as int,
            ));
        }
        seg = path.substring_char(k, e);
    }
    let suffix = tail_chars(seg, 6);
    let mut r = String::from_str(scheme);
    r.append(host);
    r.append("\u{2026}/\u{2026}");
    r.append(suffix.as_str());
    proof {
        reveal_strlit("\u{2026}/\u{2026}");
        assert("\u{2026}/\u{2026}"@ =~= seq!['\u{2026}', '/', '\u{2026}']);
        assert(r@ =~= spec_mask_url(raw@));
    }
    r
}

/// A sensitive string masked for the log, by key: titles keep their length
/// and last six characters, URLs their scheme, host and segment tail, ids
/// their last four characters; anything else is fully redacted.
pub open spec fn spec_mask_text(key: Seq<char>, raw: Seq<char>) -> Seq<char> {
    if key == "title"@ {
        seq!['[', 'r', 'e', 'd', 'a', 'c', 't', 'e', 'd', ':'] + crate::text::dec_digits(
            raw.len() as int,
        ) + seq!['\u{2026}'] + spec_tail(raw, 6) + seq![']']
    } else if key == "url"@ {
        spec_mask_url(raw)
    } else if key == "callId"@ || key == "eventId"@ {
        spec_mask_id(raw)
    } else {
        seq!['[', 'r', 'e', 'd', 'a', 'c', 't', 'e', 'd', ']']
    }
}

/// Mask one sensitive string value under its context key.
pub fn mask_text(key: &str, raw: &str) -> (r: String)
    ensures
        r@ == spec_mask_text(key@, raw@),
{
    if str_eq(key, "title") {
        let len = raw.unicode_len();
        let digits = crate::text::u64_to_dec(len as u64);
        let tail = tail_chars(raw, 6);
        let mut r = String::from_str("[redacted:");
        r.append(digits.as_str());
        r.append("\u{2026}");
        r.append(tail.as_str());
        r.append("]");
        proof {
            reveal_strlit("[redacted:");
            reveal_strlit("\u{2026}");
            reveal_strlit("]");
            assert(r@ =~= spec_mask_text(key@, raw@));
        }
        r
    } else if str_eq(key, "url") {
        mask_url(raw)
    } else if str_eq(key, "callId") || str_eq(key, "eventId") {
        mask_id(raw)
    } else {
        let r = String::from_str("[redacted]");
        proof {
            reveal_strlit("[redacted]");
            assert(r@ =~= spec_mask_text(key@, raw@));
        }
        r
    }
}

/// The rate-limit record for one scope:module:event key.
#[derive(Debug, Clone, Copy, PartialEq, Eq, Structural)]
pub struct RateLimitState {
    pub last_ts_ms: u64,
    pub suppressed: u64,
}

/// The rate-limit key for an event.
pub open spec fn rate_key(scope: Seq<char>, module: Seq<char>, event: Seq<char>) -> Seq<char> {
    scope + seq![':'] + module + seq![':'] + event
}

/// The log manager's decision state: whether collection is on, the level
/// threshold, the session tag, and the per-event rate-limit records.
#[derive(Debug)]
pub struct LogManager {
    pub enabled: bool,
    pub level: LogLevel,
    pub session_id: String,
    pub last_cleanup_ms: u64,
    pub rate_limits: Vec<(String, RateLimitState)>,
}

/// Whether the preferences turn log collection on.
pub open spec fn spec_log_enabled(s: SettingsV) -> bool {
    match s.tauri {
        Option::Some(t) => t.log_collection_enabled,
        Option::None => false,
    }
}

/// The level threshold the preferences configure.
pub open spec fn spec_log_level(s: SettingsV) -> LogLevel {
    match s.tauri {
        Option::Some(t) => t.log_level,
        Option::None => LogLevel::Info,
    }
}

impl LogManager {
    /// The rate-limit records as a map.
    pub open spec fn rate_map(&self) -> Map<Seq<char>, RateLimitState> {
        kv_map(self.rate_limits@)
    }

    /// A fresh manager, configured from the given preferences. The session
    /// tag is chosen by the caller.
    pub fn new(settings: &Settings, session_id: String) -> (r: Self)
        ensures
            r.enabled == spec_log_enabled(settings@),
            r.level == spec_log_level(settings@),
            r.session_id@ == session_id@,
            r.last_cleanup_ms == 0,
            r.rate_limits@.len() == 0,
    {
        let mut manager = LogManager {
            enabled: false,
            level: LogLevel::Info,
            session_id,
            last_cleanup_ms: 0,
            rate_limits: Vec::new(),
        };
        manager.configure(settings);
        manager
    }

    /// Re-read the enabled flag and level threshold from the preferences.
    pub fn configure(&mut self, settings: &Settings)
        ensures
            final(self).enabled == spec_log_enabled(settings@),
            final(self).level == spec_log_level(settings@),
            final(self).session_id == old(self).session_id,
            final(self).last_cleanup_ms == old(self).last_cleanup_ms,
            final(self).rate_limits == old(self).rate_limits,
    {
        match &settings.tauri {
            Option::Some(t) => {
                self.enabled = t.log_collection_enabled;
                self.level = t.log_level;
            },
            Option::None => {
                self.enabled = false;
                self.level = LogLevel::Info;
            },
        }
    }

    /// Whether it is time to sweep old log files, advancing the sweep clock
    /// when it is.
    pub fn should_cleanup(&mut self, now: u64) -> (r: bool)
        ensures
            final(self).enabled == old(self).enabled,
            final(self).level == old(self).level,
            final(self).session_id == old(self).session_id,
            final(self).rate_limits == old(self).rate_limits,
            if (if now >= old(self).last_cleanup_ms {
                now - old(self).last_cleanup_ms
            } else {
                0
            }) < CLEANUP_INTERVAL_MS {
                r == false && final(self).last_cleanup_ms == old(self).last_cleanup_ms
            } else {
                r == true && final(self).last_cleanup_ms == now
            },
    {
        if now.saturating_sub(self.last_cleanup_ms) < CLEANUP_INTERVAL_MS {
            return false;
        }
        self.last_cleanup_ms = now;
        true
    }

    /// Decide whether an entry is written. `None` drops it; `Some(n)` writes
    /// it, reporting that `n` earlier repeats were swallowed by its rate
    /// window and should be noted on the entry.
    pub fn should_write_entry(
        &mut self,
        level: LogLevel,
        scope: &str,
        module: &str,
        event: &str,
        ts_ms: u64,
    ) -> (r: Option<u64>)
        ensures
            final(self).enabled == old(self).enabled,
            final(self).level == old(self).level,
            final(self).session_id == old(self).session_id,
            final(self).last_cleanup_ms == old(self).last_cleanup_ms,
            !old(self).enabled ==> r is None && final(self).rate_limits == old(self).rate_limits,
            old(self).enabled && !spec_level_allowed(level, old(self).level) ==> r is None
                && final(self).rate_limits == old(self).rate_limits,
            (old(self).enabled && spec_level_allowed(level, old(self).level) && spec_rate_window(
                level,
                module@,
                event@,
            ) is None) ==> r == Some(0u64) && final(self).rate_limits == old(self).rate_limits,
            old(self).enabled && spec_level_allowed(level, old(self).level) ==> (spec_rate_window(
                level,
                module@,
                event@,
            ) matches Some(w) ==> ({
                let k = rate_key(scope@, module@, event@);
                let st = if old(self).rate_map().dom().contains(k) {
                    old(self).rate_map()[k]
                } else {
                    RateLimitState { last_ts_ms: 0, suppressed: 0 }
                };
                if st.last_ts_ms > 0 && (if ts_ms >= st.last_ts_ms {
                    ts_ms - st.last_ts_ms
                } else {
                    0
                }) < w {
                    r is None && final(self).rate_map() == old(self).rate_map().insert(
                        k,
                        RateLimitState {
                            last_ts_ms: st.last_ts_ms,
                            suppressed: if st.suppressed == u64::MAX {
                                u64::MAX
                            } else {
                                (st.suppressed + 1) as u64
                            },
                        },
                    )
                } else {
                    r == Some(st.suppressed) && final(self).rate_map() == old(self)
                        .rate_map().insert(k, RateLimitState { last_ts_ms: ts_ms, suppressed: 0 })
                }
            })),
    {
        if !self.enabled {
            return None;
        }
        if !level_allowed(&level, &self.level) {
            return None;
        }
        let window = rate_limit_window_ms(&level, module, event);
        match window {
            Option::None => Some(0),
            Option::Some(w) => {
                let mut key = String::from_str(scope);
                key.append(":");
                key.append(module);
                key.append(":");
                key.append(event);
                proof {
                    reveal_strlit(":");
                    assert(key@ =~= rate_key(scope@, module@, event@));
                }
                let found = kv_find_last(&self.rate_limits, key.as_str());
                let st = match found {
                    Option::Some(i) => self.rate_limits[i].1,
                    Option::None => RateLimitState { last_ts_ms: 0, suppressed: 0 },
                };
                if st.last_ts_ms > 0 && ts_ms.saturating_sub(st.last_ts_ms) < w {
                    let bumped = RateLimitState {
                        last_ts_ms: st.last_ts_ms,
                        suppressed: st.suppressed.saturating_add(1),
                    };
                    kv_insert(&mut self.rate_limits, key.as_str(), bumped);
                    None
                } else {
                    let fresh = RateLimitState { last_ts_ms: ts_ms, suppressed: 0 };
                    kv_insert(&mut self.rate_limits, key.as_str(), fresh);
                    Some(st.suppressed)
                }
            },
        }
    }
}

} // verus!
