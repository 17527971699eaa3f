//! The trigger state store and the trigger decision logic.
//!
//! A [`DaemonState`] holds the latest reported meeting list together with the
//! per-meeting `joined` and `suppressed` records. The query functions decide
//! which meeting, if any, should trigger the next automatic join, and when.
//!
//! All clock readings enter as plain millisecond timestamps, so every
//! decision here is a pure function of its arguments.

use vstd::prelude::*;
use vstd::string::StringExecFns;
use crate::kvlist::{kv_map, kv_insert};
use crate::settings::{Settings, SettingsV};
use crate::text::{has_substring, str_contains, str_eq};

verus! {

/// One upcoming meeting, as reported by the calendar scraper.
///
/// `begin_time_ms` and `end_time_ms` are absolute wall-clock instants in
/// milliseconds since the Unix epoch; `starts_in_minutes` is the reporter's
/// coarse relative field (negative once the meeting has started), kept for
/// display while the trigger arithmetic recomputes from `begin_time_ms`.
#[derive(Debug)]
pub struct Meeting {
    pub call_id: String,
    pub url: String,
    pub title: String,
    pub display_time: String,
    pub begin_time_ms: i64,
    pub end_time_ms: i64,
    pub event_id: Option<String>,
    pub starts_in_minutes: i64,
}

impl Clone for Meeting {
    fn clone(&self) -> (r: Self)
        ensures
            r == *self,
    {
        Meeting {
            call_id: self.call_id.clone(),
            url: self.url.clone(),
            title: self.title.clone(),
            display_time: self.display_time.clone(),
            begin_time_ms: self.begin_time_ms,
            end_time_ms: self.end_time_ms,
            event_id: match &self.event_id {
                Option::Some(s) => Option::Some(s.clone()),
                Option::None => Option::None,
            },
            starts_in_minutes: self.starts_in_minutes,
        }
    }
}

/// The decision of the trigger calculator: which meeting to join, and in how
/// many milliseconds to fire.
#[derive(Debug)]
pub struct NextJoinTrigger {
    pub meeting: Meeting,
    pub delay_ms: u64,
}

impl Clone for NextJoinTrigger {
    fn clone(&self) -> (r: Self)
        ensures
            r == *self,
    {
        NextJoinTrigger { meeting: self.meeting.clone(), delay_ms: self.delay_ms }
    }
}

/// The set of ids that a joined-list holds.
pub open spec fn id_set(s: Seq<String>) -> Set<Seq<char>>
    decreases s.len(),
{
    if s.len() == 0 {
        Set::empty()
    } else {
        id_set(s.drop_last()).insert(s.last()@)
    }
}

/// An id is in the set exactly when some entry of the list reads as it.
pub proof fn lemma_id_set_contains(s: Seq<String>, k: Seq<char>)
    ensures
        id_set(s).contains(k) <==> exists|i: int| 0 <= i < s.len() && (#[trigger] s[i])@ == k,
    decreases s.len(),
{
    if s.len() == 0 {
    } else {
        lemma_id_set_contains(s.drop_last(), k);
        if s.last()@ == k {
            assert(s[s.len() - 1]@ == k);
        } else {
            if id_set(s).contains(k) {
                let i = choose|i: int| 0 <= i < s.drop_last().len() && (#[trigger] s.drop_last()[i])@ == k;
                assert(s[i]@ == k);
            }
            if exists|i: int| 0 <= i < s.len() && (#[trigger] s[i])@ == k {
                let i = choose|i: int| 0 <= i < s.len() && (#[trigger] s[i])@ == k;
                assert(i < s.len() - 1);
                assert(s.drop_last()[i]@ == k);
            }
        }
    }
}

/// The trigger state store: the latest meeting list plus the per-meeting
/// joined and suppressed records.
#[derive(Debug)]
pub struct DaemonState {
    pub running: bool,
    pub meetings: Vec<Meeting>,
    pub joined_meetings: Vec<String>,
    pub suppressed_meetings: Vec<(String, i64)>,
}

impl Default for DaemonState {
    fn default() -> (r: Self)
        ensures
            r.running == false,
            r.meetings@.len() == 0,
            r.joined_ids() == Set::<Seq<char>>::empty(),
            r.suppressed_map() == Map::<Seq<char>, i64>::empty(),
    {
        DaemonState {
            running: false,
            meetings: Vec::new(),
            joined_meetings: Vec::new(),
            suppressed_meetings: Vec::new(),
        }
    }
}

impl DaemonState {
    /// The set of call ids already joined (or already triggered).
    pub open spec fn joined_ids(&self) -> Set<Seq<char>> {
        id_set(self.joined_meetings@)
    }

    /// The record of close times for meetings closed at or after their
    /// trigger time.
    pub open spec fn suppressed_map(&self) -> Map<Seq<char>, i64> {
        kv_map(self.suppressed_meetings@)
    }

    /// Whether the daemon is running.
    pub fn is_running(&self) -> (r: bool)
        ensures
            r == self.running,
    {
        self.running
    }

    /// Start the daemon.
    pub fn start(&mut self)
        ensures
            final(self).running == true,
            final(self).meetings == old(self).meetings,
            final(self).joined_meetings == old(self).joined_meetings,
            final(self).suppressed_meetings == old(self).suppressed_meetings,
    {
        self.running = true;
    }

    /// Stop the daemon.
    pub fn stop(&mut self)
        ensures
            final(self).running == false,
            final(self).meetings == old(self).meetings,
            final(self).joined_meetings == old(self).joined_meetings,
            final(self).suppressed_meetings == old(self).suppressed_meetings,
    {
        self.running = false;
    }

    /// Replace the meeting list wholesale; stale ids simply disappear.
    pub fn update_meetings(&mut self, meetings: Vec<Meeting>)
        ensures
            final(self).meetings == meetings,
            final(self).running == old(self).running,
            final(self).joined_meetings == old(self).joined_meetings,
            final(self).suppressed_meetings == old(self).suppressed_meetings,
    {
        self.meetings = meetings;
    }

    /// A copy of the current meeting list.
    pub fn get_meetings(&self) -> (r: Vec<Meeting>)
        ensures
            r@ == self.meetings@,
    {
        let r = self.meetings.clone();
        proof {
            assert(r@ =~= self.meetings@);
        }
        r
    }

    /// Whether `call_id` has been marked joined.
    pub fn is_joined(&self, call_id: &str) -> (r: bool)
        ensures
            r == self.joined_ids().contains(call_id@),
    {
        let n = self.joined_meetings.len();
        let mut i: usize = 0;
        while i < n
            invariant
                n == self.joined_meetings@.len(),
                i <= n,
                forall|j: int| 0 <= j < i ==> (#[trigger] self.joined_meetings@[j])@ != call_id@,
            decreases n - i,
        {
            if str_eq(self.joined_meetings[i].as_str(), call_id) {
                proof {
                    lemma_id_set_contains(self.joined_meetings@, call_id@);
                }
                return true;
            }
            i = i + 1;
        }
        proof {
            lemma_id_set_contains(self.joined_meetings@, call_id@);
        }
        false
    }

    /// Mark a meeting as joined. Marking is idempotent: the joined set gains
    /// the id, whether or not it was already present.
    pub fn mark_joined(&mut self, call_id: &str)
        ensures
            final(self).joined_ids() == old(self).joined_ids().insert(call_id@),
            final(self).running == old(self).running,
            final(self).meetings == old(self).meetings,
            final(self).suppressed_meetings == old(self).suppressed_meetings,
    {
        if !self.is_joined(call_id) {
            let ghost s = self.joined_meetings@;
            self.joined_meetings.push(String::from_str(call_id));
            proof {
                assert(self.joined_meetings@.drop_last() =~= s);
            }
        } else {
            proof {
                assert(old(self).joined_ids().insert(call_id@) =~= old(self).joined_ids());
            }
        }
    }

    /// Clear the joined history, re-enabling previously triggered meetings.
    pub fn clear_joined(&mut self)
        ensures
            final(self).joined_ids() == Set::<Seq<char>>::empty(),
            final(self).joined_meetings@.len() == 0,
            final(self).running == old(self).running,
            final(self).meetings == old(self).meetings,
            final(self).suppressed_meetings == old(self).suppressed_meetings,
    {
        self.joined_meetings.clear();
    }

    /// The joined call ids, in the order they were first marked.
    pub fn get_joined_meetings(&self) -> (r: Vec<String>)
        ensures
            r@ == self.joined_meetings@,
    {
        let r = self.joined_meetings.clone();
        proof {
            assert(r@ =~= self.joined_meetings@);
        }
        r
    }

    /// Record that the user closed `call_id`'s window at `closed_at_ms`.
    pub fn mark_suppressed(&mut self, call_id: &str, closed_at_ms: i64)
        ensures
            final(self).suppressed_map() == old(self).suppressed_map().insert(
                call_id@,
                closed_at_ms,
            ),
            final(self).running == old(self).running,
            final(self).meetings == old(self).meetings,
            final(self).joined_meetings == old(self).joined_meetings,
    {
        kv_insert(&mut self.suppressed_meetings, call_id, closed_at_ms);
    }

    /// Decide which meeting should trigger the next automatic join and in how
    /// many milliseconds, recomputed from absolute begin times for
    /// millisecond precision.
    #[verifier::loop_isolation(false)]
    pub fn calculate_next_trigger(&self, settings: &Settings, now_ms: i64) -> (r: Option<
        NextJoinTrigger,
    >)
        ensures
            match r {
                Option::None => spec_next_trigger(
                    self.meetings@,
                    self.joined_ids(),
                    settings@,
                    now_ms as int,
                ) is None,
                Option::Some(t) => {
                    &&& spec_next_trigger(self.meetings@, self.joined_ids(), settings@, now_ms as int)
                        == Some(t.meeting)
                    &&& cand_delay(t.meeting, settings@, now_ms as int) == Some(t.delay_ms as int)
                },
            },
    {
        let ghost cand = |m: Meeting| trigger_eligible(m, self.joined_ids(), settings@, now_ms as int);
        let ghost key = |m: Meeting| spec_delay_of(m, settings@, now_ms as int);
        let n = self.meetings.len();
        let mut best: Option<usize> = None;
        let mut best_delay: u64 = 0;
        let mut i: usize = 0;
        while i < n
            invariant
                i <= n,
                match best {
                    Option::None => first_min_by(self.meetings@.subrange(0, i as int), cand, key) is None,
                    Option::Some(b) => {
                        &&& b < i
                        &&& first_min_by(self.meetings@.subrange(0, i as int), cand, key) == Some(
                            self.meetings@[b as int],
                        )
                        &&& cand(self.meetings@[b as int])
                        &&& key(self.meetings@[b as int]) == best_delay as int
                    },
                },
            decreases n - i,
        {
            let ghost prefix = self.meetings@.subrange(0, i as int);
            let m = &self.meetings[i];
            let delay = compute_delay(m, settings, now_ms);
            match delay {
                Option::Some(d) => {
                    let joined = self.is_joined(m.call_id.as_str());
                    let excluded = title_matches_filter(m.title.as_str(), &settings.title_exclude_filters);
                    if !joined && !excluded {
                        assert(cand(self.meetings@[i as int]));
                        let replace = match best {
                            Option::None => true,
                            Option::Some(_) => d < best_delay,
                        };
                        if replace {
                            best = Some(i);
                            best_delay = d;
                        }
                    } else {
                        assert(!cand(self.meetings@[i as int]));
                    }
                },
                Option::None => {
                    assert(!cand(self.meetings@[i as int]));
                },
            }
            proof {
                assert(self.meetings@.subrange(0, i + 1 as int) =~= prefix.push(
                    self.meetings@[i as int],
                ));
                lemma_first_min_push(prefix, self.meetings@[i as int], cand, key);
            }
            i = i + 1;
        }
        proof {
            assert(self.meetings@.subrange(0, n as int) =~= self.meetings@);
        }
        match best {
            Option::None => None,
            Option::Some(b) => Some(
                NextJoinTrigger { meeting: self.meetings[b].clone(), delay_ms: best_delay },
            ),
        }
    }

    /// Which meeting, if any, should be joined right now, judged from the
    /// coarse minute field: the nearest meeting inside the join window that
    /// is neither joined nor filtered out by title.
    #[verifier::loop_isolation(false)]
    pub fn should_join_now(&self, settings: &Settings) -> (r: Option<Meeting>)
        ensures
            match r {
                Option::None => spec_should_join(self.meetings@, self.joined_ids(), settings@) is None,
                Option::Some(m) => spec_should_join(self.meetings@, self.joined_ids(), settings@)
                    == Some(m),
            },
    {
        let ghost cand = |m: Meeting| join_candidate(m, self.joined_ids(), settings@);
        let ghost key = |m: Meeting| minute_distance(m);
        let n = self.meetings.len();
        let mut best: Option<usize> = None;
        let mut best_dist: i128 = 0;
        let mut i: usize = 0;
        while i < n
            invariant
                i <= n,
                match best {
                    Option::None => first_min_by(self.meetings@.subrange(0, i as int), cand, key) is None,
                    Option::Some(b) => {
                        &&& b < i
                        &&& first_min_by(self.meetings@.subrange(0, i as int), cand, key) == Some(
                            self.meetings@[b as int],
                        )
                        &&& cand(self.meetings@[b as int])
                        &&& key(self.meetings@[b as int]) == best_dist as int
                    },
                },
            decreases n - i,
        {
            let ghost prefix = self.meetings@.subrange(0, i as int);
            let m = &self.meetings[i];
            let in_window = m.starts_in_minutes <= settings.join_before_minutes as i64
                && m.starts_in_minutes >= -(settings.max_minutes_after_start as i64);
            if in_window {
                let joined = self.is_joined(m.call_id.as_str());
                let excluded = title_matches_filter(m.title.as_str(), &settings.title_exclude_filters);
                if !joined && !excluded {
                    assert(cand(self.meetings@[i as int]));
                    let dist: i128 = if m.starts_in_minutes < 0 {
                        -(m.starts_in_minutes as i128)
                    } else {
                        m.starts_in_minutes as i128
                    };
                    let replace = match best {
                        Option::None => true,
                        Option::Some(_) => dist < best_dist,
                    };
                    if replace {
                        best = Some(i);
                        best_dist = dist;
                    }
                } else {
                    assert(!cand(self.meetings@[i as int]));
                }
            } else {
                assert(!cand(self.meetings@[i as int]));
            }
            proof {
                assert(self.meetings@.subrange(0, i + 1 as int) =~= prefix.push(
                    self.meetings@[i as int],
                ));
                lemma_first_min_push(prefix, self.meetings@[i as int], cand, key);
            }
            i = i + 1;
        }
        proof {
            assert(self.meetings@.subrange(0, n as int) =~= self.meetings@);
        }
        match best {
            Option::None => None,
            Option::Some(b) => Some(self.meetings[b].clone()),
        }
    }

    /// The next meeting to show in the status display: the loosest view,
    /// excluding only joined meetings and those that started more than five
    /// minutes ago.
    #[verifier::loop_isolation(false)]
    pub fn get_next_meeting(&self, now_ms: i64) -> (r: Option<Meeting>)
        ensures
            match r {
                Option::None => spec_display_next(self.meetings@, self.joined_ids(), now_ms as int) is None,
                Option::Some(m) => spec_display_next(self.meetings@, self.joined_ids(), now_ms as int)
                    == Some(m),
            },
    {
        let ghost cand = |m: Meeting| display_candidate(m, self.joined_ids(), now_ms as int);
        let ghost key = |m: Meeting| m.begin_time_ms as int;
        let n = self.meetings.len();
        let mut best: Option<usize> = None;
        let mut best_begin: i64 = 0;
        let mut i: usize = 0;
        while i < n
            invariant
                i <= n,
                match best {
                    Option::None => first_min_by(self.meetings@.subrange(0, i as int), cand, key) is None,
                    Option::Some(b) => {
                        &&& b < i
                        &&& first_min_by(self.meetings@.subrange(0, i as int), cand, key) == Some(
                            self.meetings@[b as int],
                        )
                        &&& cand(self.meetings@[b as int])
                        &&& key(self.meetings@[b as int]) == best_begin as int
                    },
                },
            decreases n - i,
        {
            let ghost prefix = self.meetings@.subrange(0, i as int);
            let m = &self.meetings[i];
            let live = (m.begin_time_ms as i128) > (now_ms as i128) - 300000;
            if live {
                let joined = self.is_joined(m.call_id.as_str());
                if !joined {
                    assert(cand(self.meetings@[i as int]));
                    let replace = match best {
                        Option::None => true,
                        Option::Some(_) => m.begin_time_ms < best_begin,
                    };
                    if replace {
                        best = Some(i);
                        best_begin = m.begin_time_ms;
                    }
                } else {
                    assert(!cand(self.meetings@[i as int]));
                }
            } else {
                assert(!cand(self.meetings@[i as int]));
            }
            proof {
                assert(self.meetings@.subrange(0, i + 1 as int) =~= prefix.push(
                    self.meetings@[i as int],
                ));
                lemma_first_min_push(prefix, self.meetings@[i as int], cand, key);
            }
            i = i + 1;
        }
        proof {
            assert(self.meetings@.subrange(0, n as int) =~= self.meetings@);
        }
        match best {
            Option::None => None,
            Option::Some(b) => Some(self.meetings[b].clone()),
        }
    }

    /// Handle a "meeting closed" notification: if the list holds a meeting
    /// with this id and the close happened at or after the meeting's trigger
    /// time, record the id as suppressed. Returns whether the id matched a
    /// known meeting.
    #[verifier::loop_isolation(false)]
    pub fn handle_meeting_closed(&mut self, call_id: &str, closed_at_ms: i64, settings: &Settings) -> (matched:
        bool)
        ensures
            final(self).running == old(self).running,
            final(self).meetings == old(self).meetings,
            final(self).joined_meetings == old(self).joined_meetings,
            match first_with_id(old(self).meetings@, call_id@) {
                Option::None => {
                    &&& matched == false
                    &&& final(self).suppressed_meetings == old(self).suppressed_meetings
                },
                Option::Some(m) => {
                    &&& matched == true
                    &&& if closed_at_ms >= trigger_at_ms(m, settings@) {
                        final(self).suppressed_map() == old(self).suppressed_map().insert(
                            call_id@,
                            closed_at_ms,
                        )
                    } else {
                        final(self).suppressed_meetings == old(self).suppressed_meetings
                    }
                },
            },
    {
        let n = self.meetings.len();
        proof {
            assert(self.meetings@.subrange(0, n as int) =~= self.meetings@);
        }
        let mut i: usize = 0;
        while i < n
            invariant
                *self == *old(self),
                n == self.meetings@.len(),
                i <= n,
                first_with_id(self.meetings@, call_id@) == first_with_id(
                    self.meetings@.subrange(i as int, n as int),
                    call_id@,
                ),
            decreases n - i,
        {
            let m = &self.meetings[i];
            proof {
                assert(self.meetings@.subrange(i as int, n as int)[0] == self.meetings@[i as int]);
                assert(self.meetings@.subrange(i as int, n as int).drop_first() =~= self.meetings@.subrange(
                    i + 1 as int,
                    n as int,
                ));
            }
            if str_eq(m.call_id.as_str(), call_id) {
                let jb: i128 = (settings.join_before_minutes as i128) * 60000;
                let trig: i128 = (m.begin_time_ms as i128) - jb;
                if (closed_at_ms as i128) >= trig {
                    self.mark_suppressed(call_id, closed_at_ms);
                }
                return true;
            }
            i = i + 1;
        }
        proof {
            assert(self.meetings@.subrange(n as int, n as int) =~= Seq::<Meeting>::empty());
        }
        false
    }

    /// The suppressed call ids, in the order they were first recorded.
    pub fn get_suppressed_meetings(&self) -> (r: Vec<String>)
        ensures
            r@.len() == self.suppressed_meetings@.len(),
            forall|i: int|
                0 <= i < r@.len() ==> (#[trigger] r@[i])@ == self.suppressed_meetings@[i].0@,
    {
        let n = self.suppressed_meetings.len();
        let mut r: Vec<String> = Vec::new();
        let mut i: usize = 0;
        while i < n
            invariant
                n == self.suppressed_meetings@.len(),
                i <= n,
                r@.len() == i,
                forall|j: int|
                    0 <= j < i ==> (#[trigger] r@[j])@ == self.suppressed_meetings@[j].0@,
            decreases n - i,
        {
            r.push(self.suppressed_meetings[i].0.clone());
            i = i + 1;
        }
        r
    }
}

/// A title contains one of the exclude filters (case-sensitive substrings).
pub open spec fn title_excluded(title: Seq<char>, filters: Seq<Seq<char>>) -> bool {
    exists|i: int| 0 <= i < filters.len() && has_substring(title, #[trigger] filters[i])
}

/// Whether `title` contains any of `filters`.
pub fn title_matches_filter(title: &str, filters: &Vec<String>) -> (r: bool)
    ensures
        r == title_excluded(title@, filters.deep_view()),
{
    let n = filters.len();
    let mut i: usize = 0;
    while i < n
        invariant
            n == filters@.len(),
            i <= n,
            forall|j: int| 0 <= j < i ==> !has_substring(title@, #[trigger] filters.deep_view()[j]),
        decreases n - i,
    {
        proof {
            assert(filters.deep_view()[i as int] == filters@[i as int]@);
        }
        if str_contains(title, filters[i].as_str()) {
            return true;
        }
        i = i + 1;
    }
    false
}

/// The instant at which a meeting's join should fire: its begin time less
/// the configured lead.
pub open spec fn trigger_at_ms(m: Meeting, s: SettingsV) -> int {
    m.begin_time_ms - s.join_before_minutes * 60000
}

/// The candidate delay for a meeting: the time still ahead of its trigger
/// instant; zero once the trigger instant has passed but the meeting is
/// still inside its join window; nothing when the meeting is too old.
pub open spec fn cand_delay(m: Meeting, s: SettingsV, now: int) -> Option<int> {
    let d = trigger_at_ms(m, s) - now;
    if d > 0 {
        Some(d)
    } else if now - m.begin_time_ms < s.max_minutes_after_start * 60000 {
        Some(0)
    } else {
        None
    }
}

/// The delay of a meeting that has one.
pub open spec fn spec_delay_of(m: Meeting, s: SettingsV, now: int) -> int {
    cand_delay(m, s, now).unwrap()
}

/// A meeting may trigger: not joined, not filtered out, and inside its join
/// window at `now`.
pub open spec fn trigger_eligible(m: Meeting, joined: Set<Seq<char>>, s: SettingsV, now: int) -> bool {
    &&& !joined.contains(m.call_id@)
    &&& !title_excluded(m.title@, s.title_exclude_filters)
    &&& cand_delay(m, s, now) is Some
}

/// A meeting is inside the minute-granularity join window.
pub open spec fn in_minute_window(m: Meeting, s: SettingsV) -> bool {
    &&& m.starts_in_minutes <= s.join_before_minutes
    &&& m.starts_in_minutes >= -(s.max_minutes_after_start as int)
}

/// A meeting qualifies for an immediate join by the minute-granularity rule.
pub open spec fn join_candidate(m: Meeting, joined: Set<Seq<char>>, s: SettingsV) -> bool {
    &&& !joined.contains(m.call_id@)
    &&& !title_excluded(m.title@, s.title_exclude_filters)
    &&& in_minute_window(m, s)
}

/// How far a meeting's start lies from now, in whole minutes.
pub open spec fn minute_distance(m: Meeting) -> int {
    if m.starts_in_minutes < 0 {
        -(m.starts_in_minutes as int)
    } else {
        m.starts_in_minutes as int
    }
}

/// A meeting qualifies for the status display: not joined, and started no
/// more than five minutes ago.
pub open spec fn display_candidate(m: Meeting, joined: Set<Seq<char>>, now: int) -> bool {
    &&& !joined.contains(m.call_id@)
    &&& m.begin_time_ms > now - 300000
}

/// The smaller of two optional candidates by `key`; the left one wins ties.
pub open spec fn merge_min(a: Option<Meeting>, b: Option<Meeting>, key: spec_fn(Meeting) -> int) -> Option<
    Meeting,
> {
    match (a, b) {
        (Option::None, _) => b,
        (Option::Some(x), Option::None) => a,
        (Option::Some(x), Option::Some(y)) => if key(x) <= key(y) {
            a
        } else {
            b
        },
    }
}

/// The first candidate attaining the minimal key, scanning left to right.
pub open spec fn first_min_by(
    s: Seq<Meeting>,
    cand: spec_fn(Meeting) -> bool,
    key: spec_fn(Meeting) -> int,
) -> Option<Meeting>
    decreases s.len(),
{
    if s.len() == 0 {
        Option::None
    } else {
        let rest = first_min_by(s.drop_first(), cand, key);
        if cand(s[0]) {
            merge_min(Some(s[0]), rest, key)
        } else {
            rest
        }
    }
}

/// Appending an element merges it into the running minimum.
pub proof fn lemma_first_min_push(
    s: Seq<Meeting>,
    x: Meeting,
    cand: spec_fn(Meeting) -> bool,
    key: spec_fn(Meeting) -> int,
)
    ensures
        first_min_by(s.push(x), cand, key) == merge_min(
            first_min_by(s, cand, key),
            if cand(x) {
                Some(x)
            } else {
                None
            },
            key,
        ),
    decreases s.len(),
{
    let xo: Option<Meeting> = if cand(x) {
        Some(x)
    } else {
        None
    };
    if s.len() == 0 {
        assert(s.push(x).drop_first() =~= Seq::<Meeting>::empty());
        assert(s.push(x)[0] == x);
        assert(first_min_by(s.push(x).drop_first(), cand, key) is None);
        assert(first_min_by(s, cand, key) is None);
        assert(first_min_by(s.push(x), cand, key) == merge_min(first_min_by(s, cand, key), xo, key));
    } else {
        assert(s.push(x).drop_first() =~= s.drop_first().push(x));
        assert(s.push(x)[0] == s[0]);
        lemma_first_min_push(s.drop_first(), x, cand, key);
        let b = first_min_by(s.drop_first(), cand, key);
        assert(first_min_by(s.push(x), cand, key) == if cand(s[0]) {
            merge_min(Some(s[0]), merge_min(b, xo, key), key)
        } else {
            merge_min(b, xo, key)
        });
        // the merge is associative, with the leftmost candidate winning ties
        assert(merge_min(Some(s[0]), merge_min(b, xo, key), key) == merge_min(
            merge_min(Some(s[0]), b, key),
            xo,
            key,
        ));
        assert(first_min_by(s, cand, key) == if cand(s[0]) {
            merge_min(Some(s[0]), b, key)
        } else {
            b
        });
        assert(first_min_by(s.push(x), cand, key) == merge_min(first_min_by(s, cand, key), xo, key));
    }
}

/// What the scan's answer means: `None` iff nothing qualifies; otherwise a
/// qualifying element of the list with the smallest key.
pub proof fn lemma_first_min_props(
    s: Seq<Meeting>,
    cand: spec_fn(Meeting) -> bool,
    key: spec_fn(Meeting) -> int,
)
    ensures
        first_min_by(s, cand, key) is None ==> forall|i: int|
            0 <= i < s.len() ==> !cand(#[trigger] s[i]),
        first_min_by(s, cand, key) matches Some(m) ==> {
            &&& cand(m)
            &&& exists|i: int| 0 <= i < s.len() && #[trigger] s[i] == m
            &&& forall|i: int|
                0 <= i < s.len() && cand(#[trigger] s[i]) ==> key(s[i]) >= key(m)
        },
    decreases s.len(),
{
    if s.len() == 0 {
    } else {
        lemma_first_min_props(s.drop_first(), cand, key);
        let rest = first_min_by(s.drop_first(), cand, key);
        if rest is Some {
            let m2 = rest.unwrap();
            let j = choose|j: int| 0 <= j < s.drop_first().len() && #[trigger] s.drop_first()[j] == m2;
            assert(s[j + 1] == m2);
        }
        assert forall|i: int| 0 <= i < s.len() && cand(#[trigger] s[i]) implies ({
            first_min_by(s, cand, key) matches Some(m) && key(s[i]) >= key(m)
        }) by {
            if i > 0 {
                assert(s.drop_first()[i - 1] == s[i]);
            }
        }
        if first_min_by(s, cand, key) is None {
            assert forall|i: int| 0 <= i < s.len() implies !cand(#[trigger] s[i]) by {
                if i > 0 {
                    assert(s.drop_first()[i - 1] == s[i]);
                }
            }
        }
    }
}

/// The decision of the trigger calculator over the store's model.
pub open spec fn spec_next_trigger(
    meetings: Seq<Meeting>,
    joined: Set<Seq<char>>,
    s: SettingsV,
    now: int,
) -> Option<Meeting> {
    first_min_by(
        meetings,
        |m: Meeting| trigger_eligible(m, joined, s, now),
        |m: Meeting| spec_delay_of(m, s, now),
    )
}

/// The decision of the immediate-join check over the store's model.
pub open spec fn spec_should_join(meetings: Seq<Meeting>, joined: Set<Seq<char>>, s: SettingsV) -> Option<
    Meeting,
> {
    first_min_by(
        meetings,
        |m: Meeting| join_candidate(m, joined, s),
        |m: Meeting| minute_distance(m),
    )
}

/// The status display's choice over the store's model.
pub open spec fn spec_display_next(meetings: Seq<Meeting>, joined: Set<Seq<char>>, now: int) -> Option<
    Meeting,
> {
    first_min_by(
        meetings,
        |m: Meeting| display_candidate(m, joined, now),
        |m: Meeting| m.begin_time_ms as int,
    )
}

/// The first meeting in the list carrying the given id, if any.
pub open spec fn first_with_id(meetings: Seq<Meeting>, id: Seq<char>) -> Option<Meeting>
    decreases meetings.len(),
{
    if meetings.len() == 0 {
        Option::None
    } else if meetings[0].call_id@ == id {
        Some(meetings[0])
    } else {
        first_with_id(meetings.drop_first(), id)
    }
}

/// The candidate delay for a meeting, computed in milliseconds from the
/// absolute begin time.
fn compute_delay(m: &Meeting, settings: &Settings, now_ms: i64) -> (r: Option<u64>)
    ensures
        match r {
            Option::None => cand_delay(*m, settings@, now_ms as int) is None,
            Option::Some(d) => cand_delay(*m, settings@, now_ms as int) == Some(d as int),
        },
{
    let jb: i128 = (settings.join_before_minutes as i128) * 60000;
    let trig: i128 = (m.begin_time_ms as i128) - jb;
    let d: i128 = trig - (now_ms as i128);
    if d > 0 {
        assert(d <= 0xffff_ffff_ffff_ffff);
        Some(d as u64)
    } else {
        let since: i128 = (now_ms as i128) - (m.begin_time_ms as i128);
        let max_after: i128 = (settings.max_minutes_after_start as i128) * 60000;
        if since < max_after {
            Some(0)
        } else {
            None
        }
    }
}

/// For every non-empty candidate set the calculator picks a candidate with
/// the smallest delay; it never picks a joined meeting, and the delay is
/// never negative.
pub proof fn lemma_next_trigger_min(
    meetings: Seq<Meeting>,
    joined: Set<Seq<char>>,
    s: SettingsV,
    now: int,
)
    ensures
        spec_next_trigger(meetings, joined, s, now) is None ==> forall|i: int|
            0 <= i < meetings.len() ==> !trigger_eligible(#[trigger] meetings[i], joined, s, now),
        spec_next_trigger(meetings, joined, s, now) matches Some(m) ==> {
            &&& trigger_eligible(m, joined, s, now)
            &&& !joined.contains(m.call_id@)
            &&& exists|i: int| 0 <= i < meetings.len() && #[trigger] meetings[i] == m
            &&& cand_delay(m, s, now) is Some
            &&& spec_delay_of(m, s, now) >= 0
            &&& forall|i: int|
                0 <= i < meetings.len() && trigger_eligible(#[trigger] meetings[i], joined, s, now)
                    ==> spec_delay_of(meetings[i], s, now) >= spec_delay_of(m, s, now)
        },
{
    lemma_first_min_props(
        meetings,
        |m: Meeting| trigger_eligible(m, joined, s, now),
        |m: Meeting| spec_delay_of(m, s, now),
    );
}

/// A meeting is never triggered twice: once its id has entered the joined
/// set — as the handler does before anything else when a trigger fires — no
/// later trigger decision returns a meeting with that id.
pub proof fn lemma_no_double_trigger(
    meetings: Seq<Meeting>,
    joined: Set<Seq<char>>,
    s: SettingsV,
    now: int,
    id: Seq<char>,
)
    ensures
        spec_next_trigger(meetings, joined.insert(id), s, now) matches Some(m) ==> m.call_id@ != id,
{
    lemma_next_trigger_min(meetings, joined.insert(id), s, now);
}

/// Marking a meeting joined is idempotent: marking it twice leaves the
/// joined set exactly as marking it once does.
pub proof fn lemma_mark_joined_idempotent(joined: Set<Seq<char>>, id: Seq<char>)
    ensures
        joined.insert(id).insert(id) == joined.insert(id),
{
    assert(joined.insert(id).insert(id) =~= joined.insert(id));
}

/// Resetting the joined history restores the pre-join decision: once the
/// joined set is empty again, the trigger decision agrees with that of a
/// store with the same meeting list that never joined anything, whatever was
/// joined in between.
pub proof fn lemma_reset_restores_pre_join_result(
    pre: DaemonState,
    post: DaemonState,
    s: SettingsV,
    now: int,
)
    requires
        pre.meetings@ == post.meetings@,
        pre.joined_ids() == Set::<Seq<char>>::empty(),
        post.joined_ids() == Set::<Seq<char>>::empty(),
    ensures
        spec_next_trigger(post.meetings@, post.joined_ids(), s, now) == spec_next_trigger(
            pre.meetings@,
            pre.joined_ids(),
            s,
            now,
        ),
{
}

} // verus!
