//! The join scheduler: owns the single outstanding timed action.
//!
//! Every reschedule supersedes the previous one. The scheduler never holds
//! more than one armed trigger, and a trigger armed by an earlier reschedule
//! carries a stale generation, so firing it is a no-op: the handler logic
//! runs only for the most recently armed trigger.
//!
//! The caller runs the clock: it arms a timer for the returned delay and
//! hands the trigger's generation back through [`JoinScheduler::on_timer_fired`]
//! when the timer elapses.

use vstd::prelude::*;
use crate::daemon::{cand_delay, spec_next_trigger, DaemonState, Meeting};
use crate::settings::{Settings, SettingsV};

verus! {

/// A one-shot trigger armed by a reschedule: fire the join for `meeting`
/// after `delay_ms`, with the preferences snapshot taken at schedule time.
#[derive(Debug)]
pub struct ArmedTrigger {
    pub generation: u64,
    pub meeting: Meeting,
    pub delay_ms: u64,
    pub settings: Settings,
}

/// The instruction emitted when a trigger fires: navigate to `url` and join,
/// using the preferences snapshot taken when the trigger was armed.
#[derive(Debug)]
pub struct JoinAction {
    pub call_id: String,
    pub url: String,
    pub settings: Settings,
}

/// The slot for the single outstanding timed action, plus the generation
/// counter that cancels superseded timers.
#[derive(Debug)]
pub struct JoinScheduler {
    pub generation: u64,
    pub armed: Option<ArmedTrigger>,
}

/// What an armed slot must look like after a reschedule that ran against the
/// given store model at instant `now` and moved the counter to `gen`.
pub open spec fn armed_matches(
    armed: Option<ArmedTrigger>,
    gen: u64,
    meetings: Seq<Meeting>,
    joined: Set<Seq<char>>,
    s: SettingsV,
    now: int,
) -> bool {
    match spec_next_trigger(meetings, joined, s, now) {
        Option::None => armed is None,
        Option::Some(m) => match armed {
            Option::None => false,
            Option::Some(t) => {
                &&& t.generation == gen
                &&& t.meeting == m
                &&& cand_delay(m, s, now) == Some(t.delay_ms as int)
                &&& t.settings@ == s
            },
        },
    }
}

impl JoinScheduler {
    /// A scheduler with nothing armed.
    pub fn new() -> (r: Self)
        ensures
            r.generation == 0,
            r.armed is None,
    {
        JoinScheduler { generation: 0, armed: None }
    }

    /// Cancel whatever was armed and arm the trigger that the current store
    /// and preferences call for, if any. Returns the newly armed trigger so
    /// that the caller can start its timer.
    pub fn reschedule(&mut self, state: &DaemonState, settings: &Settings, now_ms: i64) -> (r:
        Option<ArmedTrigger>)
        requires
            old(self).generation < u64::MAX,
        ensures
            final(self).generation == old(self).generation + 1,
            armed_matches(
                final(self).armed,
                final(self).generation,
                state.meetings@,
                state.joined_ids(),
                settings@,
                now_ms as int,
            ),
            match (r, final(self).armed) {
                (Option::None, Option::None) => true,
                (Option::Some(a), Option::Some(b)) => {
                    &&& a.generation == b.generation
                    &&& a.meeting == b.meeting
                    &&& a.delay_ms == b.delay_ms
                    &&& a.settings@ == b.settings@
                },
                _ => false,
            },
    {
        self.generation = self.generation + 1;
        match state.calculate_next_trigger(settings, now_ms) {
            Option::Some(t) => {
                let armed = ArmedTrigger {
                    generation: self.generation,
                    meeting: t.meeting.clone(),
                    delay_ms: t.delay_ms,
                    settings: settings.clone(),
                };
                let out = ArmedTrigger {
                    generation: self.generation,
                    meeting: t.meeting,
                    delay_ms: t.delay_ms,
                    settings: settings.clone(),
                };
                self.armed = Some(armed);
                Some(out)
            },
            Option::None => {
                self.armed = None;
                None
            },
        }
    }

    /// A timer elapsed for generation `generation`. If that trigger was
    /// superseded in the meantime, nothing happens. Otherwise the target
    /// meeting is marked joined in the store — before any navigation — the
    /// slot is emptied, and the join instruction is returned.
    pub fn on_timer_fired(&mut self, generation: u64, state: &mut DaemonState) -> (r: Option<
        JoinAction,
    >)
        ensures
            (generation != old(self).generation || old(self).armed is None) ==> {
                &&& *final(self) == *old(self)
                &&& *final(state) == *old(state)
                &&& r is None
            },
            (generation == old(self).generation && old(self).armed is Some) ==> {
                let t = old(self).armed.unwrap();
                &&& final(self).generation == old(self).generation
                &&& final(self).armed is None
                &&& final(state).running == old(state).running
                &&& final(state).meetings == old(state).meetings
                &&& final(state).suppressed_meetings == old(state).suppressed_meetings
                &&& final(state).joined_ids() == old(state).joined_ids().insert(
                    t.meeting.call_id@,
                )
                &&& match r {
                    Option::None => false,
                    Option::Some(a) => {
                        &&& a.call_id@ == t.meeting.call_id@
                        &&& a.url@ == t.meeting.url@
                        &&& a.settings@ == t.settings@
                    },
                }
            },
    {
        if generation != self.generation {
            return None;
        }
        let armed = self.armed.take();
        match armed {
            Option::Some(t) => {
                state.mark_joined(t.meeting.call_id.as_str());
                Some(
                    JoinAction {
                        call_id: t.meeting.call_id,
                        url: t.meeting.url,
                        settings: t.settings,
                    },
                )
            },
            Option::None => None,
        }
    }
}

/// Back-to-back reschedules leave exactly one armed trigger — the one the
/// second call computed from its own store and preferences — and any trigger
/// the first call armed carries a stale generation, so firing it is a no-op.
pub proof fn lemma_second_reschedule_wins(
    before: JoinScheduler,
    mid: JoinScheduler,
    after: JoinScheduler,
    m1: Seq<Meeting>,
    j1: Set<Seq<char>>,
    s1: SettingsV,
    n1: int,
    m2: Seq<Meeting>,
    j2: Set<Seq<char>>,
    s2: SettingsV,
    n2: int,
)
    requires
        mid.generation == before.generation + 1,
        armed_matches(mid.armed, mid.generation, m1, j1, s1, n1),
        after.generation == mid.generation + 1,
        armed_matches(after.armed, after.generation, m2, j2, s2, n2),
    ensures
        armed_matches(after.armed, after.generation, m2, j2, s2, n2),
        mid.armed is Some ==> mid.armed.unwrap().generation != after.generation,
{
}

} // verus!
