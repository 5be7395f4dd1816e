//! Pomodoro timer: a work/break state machine.
//!
//! The clock is read by the caller: each tick and key press hands in the current time as
//! nanoseconds on a monotonic clock, and the timer keeps the time of its last tick.
use vstd::prelude::*;
use crate::text::{dec_pad, push_dec, push_dec_pad, push_str, str_chars, string_from_chars};

verus! {

broadcast use vstd::string::group_string_axioms;

#[derive(Debug, PartialEq)]
pub enum PomodoroState {
    Idle,
    Work,
    ShortBreak,
    LongBreak,
    /// Wraps the state that was active when pause was triggered.
    Paused(Box<PomodoroState>),
}

pub struct PomodoroPlugin {
    pub state: PomodoroState,
    pub remaining_secs: u32,
    pub session_count: u32,
    pub work_minutes: u32,
    pub short_break_minutes: u32,
    pub long_break_minutes: u32,
    pub sessions_before_long: u32,
    /// When the last tick was counted (nanoseconds on the caller's monotonic clock).
    pub last_tick: Option<u64>,
}

/// What a timer holds, as values.
pub struct PomodoroView {
    pub state: PomodoroState,
    pub remaining_secs: u32,
    pub session_count: u32,
    pub work_minutes: u32,
    pub short_break_minutes: u32,
    pub long_break_minutes: u32,
    pub sessions_before_long: u32,
    pub last_tick: Option<u64>,
}

impl View for PomodoroPlugin {
    type V = PomodoroView;

    open spec fn view(&self) -> PomodoroView {
        PomodoroView {
            state: self.state,
            remaining_secs: self.remaining_secs,
            session_count: self.session_count,
            work_minutes: self.work_minutes,
            short_break_minutes: self.short_break_minutes,
            long_break_minutes: self.long_break_minutes,
            sessions_before_long: self.sessions_before_long,
            last_tick: self.last_tick,
        }
    }
}

pub open spec fn is_running(s: PomodoroState) -> bool {
    s is Work || s is ShortBreak || s is LongBreak
}

/// The settings keep every period in seconds within `u32`, and there is at least one
/// session before a long break.
pub open spec fn settings_ok(v: PomodoroView) -> bool {
    &&& v.work_minutes * 60 <= u32::MAX
    &&& v.short_break_minutes * 60 <= u32::MAX
    &&& v.long_break_minutes * 60 <= u32::MAX
    &&& v.sessions_before_long > 0
}

/// The length of a running period, in seconds.
pub open spec fn period_secs(v: PomodoroView, s: PomodoroState) -> u32 {
    match s {
        PomodoroState::Work => (v.work_minutes * 60) as u32,
        PomodoroState::ShortBreak => (v.short_break_minutes * 60) as u32,
        PomodoroState::LongBreak => (v.long_break_minutes * 60) as u32,
        _ => (v.work_minutes * 60) as u32,
    }
}

/// The message that entering a state gives.
pub open spec fn transition_msg(v: PomodoroView, next: PomodoroState) -> Seq<char> {
    match next {
        PomodoroState::Work => "Work session "@ + crate::text::dec((v.session_count + 1) as nat)
            + " started. Focus!"@,
        PomodoroState::ShortBreak => "Short break — stretch and breathe."@,
        PomodoroState::LongBreak => "Long break — great work! Recharge."@,
        PomodoroState::Idle => "Pomodoro cycle complete. Well done!"@,
        PomodoroState::Paused(_) => Seq::empty(),
    }
}

/// Entering `next`: its full period, and no tick counted yet.
pub open spec fn enter(v: PomodoroView, next: PomodoroState) -> PomodoroView {
    PomodoroView { state: next, remaining_secs: period_secs(v, next), last_tick: None, ..v }
}

/// What a tick at time `now` does: the timer after it and the notifications it gives.
pub open spec fn tick(v: PomodoroView, now: u64) -> (PomodoroView, Seq<Seq<char>>) {
    if !is_running(v.state) {
        (PomodoroView { last_tick: None, ..v }, Seq::empty())
    } else {
        match v.last_tick {
            None => (PomodoroView { last_tick: Some(now), ..v }, Seq::empty()),
            Some(prev) => {
                let e = (((if now >= prev {
                    now - prev
                } else {
                    0
                }) / 1_000_000_000) as u64) as u32;
                if e == 0 {
                    (PomodoroView { last_tick: Some(now), ..v }, Seq::empty())
                } else {
                    let sub = if e < v.remaining_secs {
                        e
                    } else {
                        v.remaining_secs
                    };
                    let w = PomodoroView {
                        last_tick: Some(now),
                        remaining_secs: (v.remaining_secs - sub) as u32,
                        ..v
                    };
                    if w.remaining_secs > 0 {
                        (w, Seq::empty())
                    } else {
                        let (done, next, w2) = match v.state {
                            PomodoroState::Work => {
                                let w2 = PomodoroView {
                                    session_count: (w.session_count + 1) as u32,
                                    ..w
                                };
                                (
                                    "🍅 Work session complete! Time for a break."@,
                                    if (w2.session_count + 1) % (w2.sessions_before_long as int)
                                        == 0 {
                                        PomodoroState::LongBreak
                                    } else {
                                        PomodoroState::ShortBreak
                                    },
                                    w2,
                                )
                            },
                            PomodoroState::ShortBreak => (
                                "☕ Break over — back to work!"@,
                                PomodoroState::Work,
                                w,
                            ),
                            _ => (
                                "🎉 Long break complete. Resetting Pomodoro."@,
                                PomodoroState::Idle,
                                w,
                            ),
                        };
                        let msg = transition_msg(w2, next);
                        (
                            enter(w2, next),
                            if msg.len() > 0 {
                                seq![done, msg]
                            } else {
                                seq![done]
                            },
                        )
                    }
                }
            },
        }
    }
}

/// A tick can be taken: the session count can grow where a work period may end.
pub open spec fn tick_ok(v: PomodoroView) -> bool {
    settings_ok(v) && v.session_count + 2 <= u32::MAX
}

/// What a key press at time `now` does: the timer after it and whether the key was used.
/// `key` is the character typed, if the key is a character.
pub open spec fn press(v: PomodoroView, key: Option<char>, now: u64) -> (PomodoroView, bool) {
    match key {
        Some(' ') => match v.state {
            PomodoroState::Idle => (enter(v, PomodoroState::Work), true),
            PomodoroState::Paused(inner) => (
                PomodoroView { state: *inner, last_tick: Some(now), ..v },
                true,
            ),
            running => (
                PomodoroView { state: PomodoroState::Paused(Box::new(running)), last_tick: None, ..v },
                true,
            ),
        },
        Some('+') | Some('=') => (
            PomodoroView { remaining_secs: (v.remaining_secs + 300) as u32, ..v },
            true,
        ),
        Some('-') | Some('_') => (
            PomodoroView {
                remaining_secs: if v.remaining_secs >= 360 {
                    (v.remaining_secs - 300) as u32
                } else {
                    60
                },
                ..v
            },
            true,
        ),
        Some('r') => (
            PomodoroView {
                remaining_secs: match v.state {
                    PomodoroState::Paused(inner) => period_secs(v, *inner),
                    s => period_secs(v, s),
                },
                last_tick: None,
                ..v
            },
            true,
        ),
        Some('R') => (
            PomodoroView {
                state: PomodoroState::Idle,
                remaining_secs: (v.work_minutes * 60) as u32,
                session_count: 0,
                last_tick: None,
                ..v
            },
            true,
        ),
        _ => (v, false),
    }
}

/// The period of state `s` fits in `u32` seconds.
pub open spec fn period_fits(v: PomodoroView, s: PomodoroState) -> bool {
    match s {
        PomodoroState::ShortBreak => v.short_break_minutes * 60 <= u32::MAX,
        PomodoroState::LongBreak => v.long_break_minutes * 60 <= u32::MAX,
        _ => v.work_minutes * 60 <= u32::MAX,
    }
}

/// The state whose period `r` restarts: the paused one, where the timer is paused.
pub open spec fn restart_state(s: PomodoroState) -> PomodoroState {
    match s {
        PomodoroState::Paused(inner) => *inner,
        s => s,
    }
}

/// A key can be pressed without leaving `u32`: starting from idle counts the session and
/// takes a work period; `+`/`=` add five minutes; `r` and `R` take a period's length. Other
/// keys, and space on a running or paused timer, need nothing.
pub open spec fn press_ok(v: PomodoroView, key: Option<char>) -> bool {
    if key == Some(' ') {
        v.state == PomodoroState::Idle ==> v.work_minutes * 60 <= u32::MAX && v.session_count + 1
            <= u32::MAX
    } else if key == Some('+') || key == Some('=') {
        v.remaining_secs + 300 <= u32::MAX
    } else if key == Some('r') {
        period_fits(v, restart_state(v.state))
    } else if key == Some('R') {
        v.work_minutes * 60 <= u32::MAX
    } else {
        true
    }
}

impl PomodoroState {
    fn copy(&self) -> (r: PomodoroState)
        ensures
            r == *self,
        decreases self,
    {
        match self {
            PomodoroState::Idle => PomodoroState::Idle,
            PomodoroState::Work => PomodoroState::Work,
            PomodoroState::ShortBreak => PomodoroState::ShortBreak,
            PomodoroState::LongBreak => PomodoroState::LongBreak,
            PomodoroState::Paused(inner) => PomodoroState::Paused(Box::new(inner.copy())),
        }
    }
}

impl PomodoroPlugin {
    pub fn new(
        work_minutes: u32,
        short_break_minutes: u32,
        long_break_minutes: u32,
        sessions_before_long: u32,
    ) -> (r: Self)
        requires
            work_minutes * 60 <= u32::MAX,
        ensures
            r.state == PomodoroState::Idle,
            r.remaining_secs == work_minutes * 60,
            r.session_count == 0,
            r.work_minutes == work_minutes,
            r.short_break_minutes == short_break_minutes,
            r.long_break_minutes == long_break_minutes,
            r.sessions_before_long == sessions_before_long,
            r.last_tick is None,
    {
        PomodoroPlugin {
            state: PomodoroState::Idle,
            remaining_secs: work_minutes * 60,
            session_count: 0,
            work_minutes,
            short_break_minutes,
            long_break_minutes,
            sessions_before_long,
            last_tick: None,
        }
    }

    /// The break that follows a finished work session: a long one every
    /// `sessions_before_long` sessions, else a short one.
    fn next_after_work(&self) -> (r: PomodoroState)
        requires
            self.sessions_before_long > 0,
        ensures
            r == (if (self.session_count + 1) % (self.sessions_before_long as int) == 0 {
                PomodoroState::LongBreak
            } else {
                PomodoroState::ShortBreak
            }),
    {
        if (self.session_count as u64 + 1) % (self.sessions_before_long as u64) == 0 {
            PomodoroState::LongBreak
        } else {
            PomodoroState::ShortBreak
        }
    }

    /// Seconds for the given running state.
    fn default_secs_for(&self, state: &PomodoroState) -> (r: u32)
        requires
            period_fits(self@, *state),
        ensures
            r == period_secs(self@, *state),
    {
        match state {
            PomodoroState::Work => self.work_minutes * 60,
            PomodoroState::ShortBreak => self.short_break_minutes * 60,
            PomodoroState::LongBreak => self.long_break_minutes * 60,
            _ => self.work_minutes * 60,
        }
    }

    /// Transition to `next`, resetting the timer and returning a notification.
    fn transition(&mut self, next: PomodoroState) -> (r: String)
        requires
            period_fits(old(self)@, next),
            next == PomodoroState::Work ==> old(self).session_count + 1 <= u32::MAX,
        ensures
            final(self)@ == enter(old(self)@, next),
            r@ == transition_msg(old(self)@, next),
    {
        let mut m: Vec<char> = Vec::new();
        match &next {
            PomodoroState::Work => {
                push_str(&mut m, "Work session ");
                push_dec(&mut m, (self.session_count as u64) + 1);
                push_str(&mut m, " started. Focus!");
            },
            PomodoroState::ShortBreak => {
                push_str(&mut m, "Short break — stretch and breathe.");
            },
            PomodoroState::LongBreak => {
                push_str(&mut m, "Long break — great work! Recharge.");
            },
            PomodoroState::Idle => {
                push_str(&mut m, "Pomodoro cycle complete. Well done!");
            },
            PomodoroState::Paused(_) => {},
        }
        assert(m@ =~= transition_msg(self@, next));
        self.remaining_secs = self.default_secs_for(&next);
        self.state = next;
        self.last_tick = None;
        string_from_chars(&m)
    }

    /// Counts the time since the last tick. When a period runs out, the next one starts
    /// and the notifications are returned.
    pub fn on_tick(&mut self, now: u64) -> (r: Vec<String>)
        requires
            tick_ok(old(self)@),
        ensures
            final(self)@ == tick(old(self)@, now).0,
            r.deep_view() == tick(old(self)@, now).1,
    {
        let ghost v = self@;
        let running = match &self.state {
            PomodoroState::Work | PomodoroState::ShortBreak | PomodoroState::LongBreak => true,
            _ => false,
        };
        if !running {
            self.last_tick = None;
            let r: Vec<String> = Vec::new();
            assert(r.deep_view() =~= Seq::<Seq<char>>::empty());
            return r;
        }
        let e: u32 = match self.last_tick {
            Some(prev) => {
                let d: u64 = if now >= prev {
                    now - prev
                } else {
                    0
                };
                let e = (d / 1_000_000_000) as u32;
                if e == 0 {
                    self.last_tick = Some(now);
                    let r: Vec<String> = Vec::new();
                    assert(r.deep_view() =~= Seq::<Seq<char>>::empty());
                    return r;
                }
                e
            },
            None => {
                self.last_tick = Some(now);
                let r: Vec<String> = Vec::new();
                assert(r.deep_view() =~= Seq::<Seq<char>>::empty());
                return r;
            },
        };
        self.last_tick = Some(now);
        let sub = if e < self.remaining_secs {
            e
        } else {
            self.remaining_secs
        };
        self.remaining_secs = self.remaining_secs - sub;
        if self.remaining_secs > 0 {
            let r: Vec<String> = Vec::new();
            assert(r.deep_view() =~= Seq::<Seq<char>>::empty());
            return r;
        }
        let mut done: Vec<char> = Vec::new();
        let next = match &self.state {
            PomodoroState::Work => {
                self.session_count = self.session_count + 1;
                push_str(&mut done, "🍅 Work session complete! Time for a break.");
                self.next_after_work()
            },
            PomodoroState::ShortBreak => {
                push_str(&mut done, "☕ Break over — back to work!");
                PomodoroState::Work
            },
            _ => {
                push_str(&mut done, "🎉 Long break complete. Resetting Pomodoro.");
                PomodoroState::Idle
            },
        };
        let msg = self.transition(next);
        let mut r: Vec<String> = Vec::new();
        r.push(string_from_chars(&done));
        if msg.as_str().is_empty() == false {
            r.push(msg);
        }
        proof {
            let t = tick(v, now);
            assert(r.deep_view() =~= t.1);
        }
        r
    }

    /// Handles a key: space starts, pauses and resumes; `+`/`=` add five minutes; `-`/`_`
    /// take five away (down to one minute); `r` restarts the period; `R` resets it all.
    /// Returns whether the key was used.
    pub fn on_key(&mut self, key: Option<char>, now: u64) -> (r: bool)
        requires
            press_ok(old(self)@, key),
        ensures
            final(self)@ == press(old(self)@, key, now).0,
            r == press(old(self)@, key, now).1,
    {
        match key {
            Some(' ') => {
                let cur = self.state.copy();
                match cur {
                    PomodoroState::Idle => {
                        let _ = self.transition(PomodoroState::Work);
                    },
                    PomodoroState::Paused(inner) => {
                        self.state = *inner;
                        self.last_tick = Some(now);
                    },
                    running => {
                        self.state = PomodoroState::Paused(Box::new(running));
                        self.last_tick = None;
                    },
                }
                true
            },
            Some('+') | Some('=') => {
                self.remaining_secs = self.remaining_secs + 300;
                true
            },
            Some('-') | Some('_') => {
                self.remaining_secs = if self.remaining_secs >= 360 {
                    self.remaining_secs - 300
                } else {
                    60
                };
                true
            },
            Some('r') => {
                let base = match &self.state {
                    PomodoroState::Paused(inner) => self.default_secs_for(inner),
                    s => self.default_secs_for(s),
                };
                self.remaining_secs = base;
                self.last_tick = None;
                true
            },
            Some('R') => {
                self.state = PomodoroState::Idle;
                self.remaining_secs = self.work_minutes * 60;
                self.session_count = 0;
                self.last_tick = None;
                true
            },
            _ => false,
        }
    }
}


// ── Display ──────────────────────────────────────────────────────────

/// `MM:SS`.
pub open spec fn time_text(secs: u32) -> Seq<char> {
    dec_pad((secs / 60) as nat, 2) + ":"@ + dec_pad((secs % 60) as nat, 2)
}

/// The state's label, the time line, the session dots and the key hint that the sidebar
/// shows.
pub open spec fn status_text(v: PomodoroView) -> (Seq<char>, Seq<char>, Seq<char>, Seq<char>) {
    let label = match v.state {
        PomodoroState::Idle => "IDLE"@,
        PomodoroState::Work => "WORK "@ + crate::text::dec((v.session_count + 1) as nat) + "/"@
            + crate::text::dec(v.sessions_before_long as nat),
        PomodoroState::ShortBreak => "SHORT BREAK"@,
        PomodoroState::LongBreak => "LONG BREAK"@,
        PomodoroState::Paused(inner) => "PAUSED ("@ + match *inner {
            PomodoroState::Work => "WORK"@,
            PomodoroState::ShortBreak => "SHORT BRK"@,
            PomodoroState::LongBreak => "LONG BRK"@,
            _ => "IDLE"@,
        } + ")"@,
    };
    let time = match v.state {
        PomodoroState::Idle => "Ready ("@ + crate::text::dec(v.work_minutes as nat) + ":00)"@,
        _ => time_text(v.remaining_secs),
    };
    let done = v.session_count % v.sessions_before_long;
    let dots = Seq::new(
        v.sessions_before_long as nat,
        |i: int|
            if i < done {
                '●'
            } else {
                '○'
            },
    );
    let hint = match v.state {
        PomodoroState::Idle => "Spc:start"@,
        PomodoroState::Paused(_) => "Spc:resume"@,
        _ => "Spc:pause"@,
    };
    (label, time, dots, hint)
}

pub fn format_time(secs: u32) -> (r: String)
    ensures
        r@ == time_text(secs),
{
    let mut out: Vec<char> = Vec::new();
    push_dec_pad(&mut out, (secs / 60) as u64, 2);
    push_str(&mut out, ":");
    push_dec_pad(&mut out, (secs % 60) as u64, 2);
    string_from_chars(&out)
}

impl PomodoroPlugin {
    /// What the sidebar shows: label, time, session dots and key hint.
    pub fn status(&self) -> (r: (String, String, String, String))
        requires
            self.sessions_before_long > 0,
            self.session_count + 1 <= u32::MAX,
        ensures
            (r.0@, r.1@, r.2@, r.3@) == status_text(self@),
    {
        let mut label: Vec<char> = Vec::new();
        match &self.state {
            PomodoroState::Idle => push_str(&mut label, "IDLE"),
            PomodoroState::Work => {
                push_str(&mut label, "WORK ");
                push_dec(&mut label, self.session_count as u64 + 1);
                push_str(&mut label, "/");
                push_dec(&mut label, self.sessions_before_long as u64);
            },
            PomodoroState::ShortBreak => push_str(&mut label, "SHORT BREAK"),
            PomodoroState::LongBreak => push_str(&mut label, "LONG BREAK"),
            PomodoroState::Paused(inner) => {
                push_str(&mut label, "PAUSED (");
                match &**inner {
                    PomodoroState::Work => push_str(&mut label, "WORK"),
                    PomodoroState::ShortBreak => push_str(&mut label, "SHORT BRK"),
                    PomodoroState::LongBreak => push_str(&mut label, "LONG BRK"),
                    _ => push_str(&mut label, "IDLE"),
                }
                push_str(&mut label, ")");
            },
        }
        let time = match &self.state {
            PomodoroState::Idle => {
                let mut t: Vec<char> = Vec::new();
                push_str(&mut t, "Ready (");
                push_dec(&mut t, self.work_minutes as u64);
                push_str(&mut t, ":00)");
                string_from_chars(&t)
            },
            _ => format_time(self.remaining_secs),
        };
        let done = self.session_count % self.sessions_before_long;
        let mut dots: Vec<char> = Vec::new();
        let mut i: u32 = 0;
        while i < self.sessions_before_long
            invariant
                i <= self.sessions_before_long,
                dots@ == Seq::new(
                    i as nat,
                    |k: int|
                        if k < done {
                            '●'
                        } else {
                            '○'
                        },
                ),
            decreases self.sessions_before_long - i,
        {
            dots.push(if i < done { '●' } else { '○' });
            i = i + 1;
            assert(dots@ =~= Seq::new(
                i as nat,
                |k: int|
                    if k < done {
                        '●'
                    } else {
                        '○'
                    },
            ));
        }
        let hint = match &self.state {
            PomodoroState::Idle => "Spc:start",
            PomodoroState::Paused(_) => "Spc:resume",
            _ => "Spc:pause",
        };
        let r = (string_from_chars(&label), time, string_from_chars(&dots), string_from_chars(&str_chars(hint)));
        assert(r.0@ =~= status_text(self@).0);
        r
    }
}

// ── Laws ─────────────────────────────────────────────────────────────

/// Pausing a running timer and resuming it with space gives back the same period with the
/// same time left and the same session count; only the clock restarts, at the moment of
/// resuming. Both presses are used, and both may be made whatever the settings.
pub proof fn lemma_pause_resume(v: PomodoroView, t1: u64, t2: u64)
    requires
        is_running(v.state),
    ensures
        ({
            let p1 = press(v, Some(' '), t1);
            let p2 = press(p1.0, Some(' '), t2);
            &&& press_ok(v, Some(' '))
            &&& press_ok(p1.0, Some(' '))
            &&& p1.1 && p2.1
            &&& p1.0 == PomodoroView {
                state: PomodoroState::Paused(Box::new(v.state)),
                last_tick: None,
                ..v
            }
            &&& p2.0 == PomodoroView { last_tick: Some(t2), ..v }
        }),
{
}

/// A tick never changes the settings, and keeps them valid.
pub proof fn lemma_tick_keeps_settings(v: PomodoroView, now: u64)
    requires
        tick_ok(v),
    ensures
        tick(v, now).0.work_minutes == v.work_minutes,
        tick(v, now).0.short_break_minutes == v.short_break_minutes,
        tick(v, now).0.long_break_minutes == v.long_break_minutes,
        tick(v, now).0.sessions_before_long == v.sessions_before_long,
        settings_ok(tick(v, now).0),
{
}

/// A tick that gives no notification stays in the same state and never adds time.
pub proof fn lemma_quiet_tick(v: PomodoroView, now: u64)
    requires
        tick_ok(v),
        tick(v, now).1.len() == 0,
    ensures
        tick(v, now).0.state == v.state,
        tick(v, now).0.remaining_secs <= v.remaining_secs,
        tick(v, now).0.session_count == v.session_count,
{
}

/// While the timer is idle or paused, a tick changes nothing but forgets the clock.
pub proof fn lemma_tick_when_stopped(v: PomodoroView, now: u64)
    requires
        !is_running(v.state),
    ensures
        tick(v, now) == (PomodoroView { last_tick: None, ..v }, Seq::<Seq<char>>::empty()),
{
}

/// A full reset leaves an idle timer with a whole work period and no sessions, whatever
/// state it was in.
pub proof fn lemma_full_reset(v: PomodoroView, now: u64)
    ensures
        press(v, Some('R'), now).0.state == PomodoroState::Idle,
        press(v, Some('R'), now).0.remaining_secs == period_secs(v, PomodoroState::Work),
        press(v, Some('R'), now).0.session_count == 0,
        press(v, Some('R'), now).0.last_tick is None,
        press(v, Some('R'), now).1,
{
}

/// When a work period runs out, the session count grows by one and the break that
/// follows is long exactly when that new count plus one is a multiple of the sessions
/// before a long break (with the default four: after the third, seventh, ... period).
pub proof fn lemma_work_end_break(v: PomodoroView, now: u64)
    requires
        tick_ok(v),
        v.state == PomodoroState::Work,
        tick(v, now).1.len() > 0,
    ensures
        tick(v, now).0.session_count == v.session_count + 1,
        tick(v, now).0.state == (if (v.session_count + 2) % (v.sessions_before_long as int) == 0 {
            PomodoroState::LongBreak
        } else {
            PomodoroState::ShortBreak
        }),
        tick(v, now).0.remaining_secs == period_secs(v, tick(v, now).0.state),
{
}

} // verus!
