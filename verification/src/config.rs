//! Settings: where the data lives, the status and priority vocabularies, plugin settings.
//!
//! Reading the settings file and the home directory is left to the caller; the
//! functions here take what was read.
use std::collections::HashMap;
use vstd::prelude::*;
use crate::text::{push_str, str_chars, string_from_chars};

verus! {

broadcast use vstd::string::group_string_axioms;

#[derive(Debug, Clone)]
pub struct PluginConfig {
    pub enabled: Vec<String>,
    pub notifications: NotificationsConfig,
    pub pomodoro: PomodoroConfig,
}

#[derive(Debug, Clone)]
pub struct NotificationsConfig {
    pub reminders: Vec<ReminderConfig>,
}

#[derive(Debug, Clone)]
pub struct ReminderConfig {
    pub time: String,
    pub message: String,
}

#[derive(Debug, Clone)]
pub struct PomodoroConfig {
    pub work_minutes: u32,
    pub short_break_minutes: u32,
    pub long_break_minutes: u32,
    pub sessions_before_long: u32,
}

#[derive(Debug, Clone)]
pub struct ReviewConfig {
    /// Hour (24h) at which the morning window starts (inclusive). Default: 6.
    pub morning_start: u32,
    /// Hour (24h) at which the morning window ends (exclusive). Default: 11.
    pub morning_end: u32,
}

#[derive(Debug, Clone)]
pub struct Config {
    pub data_dir: String,
    pub statuses: Vec<String>,
    pub priorities: Vec<String>,
    pub export_path: String,
    pub plugins: PluginConfig,
    pub review: ReviewConfig,
    /// Map of project slug → git repo path (for `jm standup` git log)
    pub git_paths: HashMap<String, String>,
}

// ── Defaults ─────────────────────────────────────────────────────────

pub open spec fn default_enabled_spec() -> Seq<Seq<char>> {
    seq!["pomodoro"@, "notifications"@, "clock"@]
}

pub open spec fn default_statuses_spec() -> Seq<Seq<char>> {
    seq!["active"@, "blocked"@, "pending"@, "parked"@, "done"@]
}

pub open spec fn default_priorities_spec() -> Seq<Seq<char>> {
    seq!["high"@, "medium"@, "low"@]
}

fn owned(s: &str) -> (r: String)
    ensures
        r@ == s@,
{
    string_from_chars(&str_chars(s))
}

pub fn default_enabled_plugins() -> (r: Vec<String>)
    ensures
        r.deep_view() == default_enabled_spec(),
{
    let r = vec![owned("pomodoro"), owned("notifications"), owned("clock")];
    assert(r.deep_view() =~= default_enabled_spec());
    r
}

pub fn default_work_minutes() -> (r: u32)
    ensures
        r == 25,
{
    25
}

pub fn default_short_break() -> (r: u32)
    ensures
        r == 5,
{
    5
}

pub fn default_long_break() -> (r: u32)
    ensures
        r == 15,
{
    15
}

pub fn default_sessions() -> (r: u32)
    ensures
        r == 4,
{
    4
}

pub fn default_morning_start() -> (r: u32)
    ensures
        r == 6,
{
    6
}

pub fn default_morning_end() -> (r: u32)
    ensures
        r == 11,
{
    11
}

pub fn default_data_dir() -> (r: String)
    ensures
        r@ == "~/.jm"@,
{
    owned("~/.jm")
}

pub fn default_statuses() -> (r: Vec<String>)
    ensures
        r.deep_view() == default_statuses_spec(),
{
    let r = vec![
        owned("active"),
        owned("blocked"),
        owned("pending"),
        owned("parked"),
        owned("done"),
    ];
    assert(r.deep_view() =~= default_statuses_spec());
    r
}

pub fn default_priorities() -> (r: Vec<String>)
    ensures
        r.deep_view() == default_priorities_spec(),
{
    let r = vec![owned("high"), owned("medium"), owned("low")];
    assert(r.deep_view() =~= default_priorities_spec());
    r
}

pub fn default_export_path() -> (r: String)
    ensures
        r@ == "~/.jm/screen.txt"@,
{
    owned("~/.jm/screen.txt")
}

impl Default for NotificationsConfig {
    fn default() -> (r: Self)
        ensures
            r.reminders@.len() == 0,
    {
        NotificationsConfig { reminders: Vec::new() }
    }
}

impl Default for PomodoroConfig {
    fn default() -> (r: Self)
        ensures
            r.work_minutes == 25,
            r.short_break_minutes == 5,
            r.long_break_minutes == 15,
            r.sessions_before_long == 4,
    {
        PomodoroConfig {
            work_minutes: 25,
            short_break_minutes: 5,
            long_break_minutes: 15,
            sessions_before_long: 4,
        }
    }
}

impl Default for PluginConfig {
    fn default() -> (r: Self)
        ensures
            r.enabled.deep_view() == default_enabled_spec(),
            r.notifications.reminders@.len() == 0,
            r.pomodoro.work_minutes == 25,
            r.pomodoro.short_break_minutes == 5,
            r.pomodoro.long_break_minutes == 15,
            r.pomodoro.sessions_before_long == 4,
    {
        PluginConfig {
            enabled: default_enabled_plugins(),
            notifications: NotificationsConfig::default(),
            pomodoro: PomodoroConfig::default(),
        }
    }
}

impl Default for ReviewConfig {
    fn default() -> (r: Self)
        ensures
            r.morning_start == 6,
            r.morning_end == 11,
    {
        ReviewConfig { morning_start: default_morning_start(), morning_end: default_morning_end() }
    }
}

impl Default for Config {
    fn default() -> (r: Self)
        ensures
            r.data_dir@ == "~/.jm"@,
            r.statuses.deep_view() == default_statuses_spec(),
            r.priorities.deep_view() == default_priorities_spec(),
            r.export_path@ == "~/.jm/screen.txt"@,
            r.plugins.enabled.deep_view() == default_enabled_spec(),
            r.plugins.notifications.reminders@.len() == 0,
            r.plugins.pomodoro.work_minutes == 25,
            r.plugins.pomodoro.short_break_minutes == 5,
            r.plugins.pomodoro.long_break_minutes == 15,
            r.plugins.pomodoro.sessions_before_long == 4,
            r.review.morning_start == 6,
            r.review.morning_end == 11,
            r.git_paths@ == Map::<String, String>::empty(),
    {
        Config {
            data_dir: default_data_dir(),
            statuses: default_statuses(),
            priorities: default_priorities(),
            export_path: default_export_path(),
            plugins: PluginConfig::default(),
            review: ReviewConfig::default(),
            git_paths: HashMap::new(),
        }
    }
}

// ── Paths ────────────────────────────────────────────────────────────

/// `base.join(rest)` for Unix paths: an absolute `rest` replaces `base`; otherwise a
/// separator is put between them unless `base` is empty or already ends in one.
pub open spec fn join_path(base: Seq<char>, rest: Seq<char>) -> Seq<char> {
    if rest.len() > 0 && rest[0] == '/' {
        rest
    } else if base.len() == 0 || base.last() == '/' {
        base + rest
    } else {
        base + seq!['/'] + rest
    }
}

/// `path` with a leading `~` (alone, or followed by `/`) replaced by the home directory,
/// where one is known.
pub open spec fn expanded(path: Seq<char>, home: Option<Seq<char>>) -> Seq<char> {
    match home {
        Some(h) => if path.len() >= 2 && path[0] == '~' && path[1] == '/' {
            join_path(h, path.skip(2))
        } else if path == seq!['~'] {
            h
        } else {
            path
        },
        None => path,
    }
}

/// Expand `~` to the user's home directory, `home` (what `$HOME` holds, if it is set).
pub fn expand_tilde(path: &str, home: Option<String>) -> (r: String)
    ensures
        r@ == expanded(path@, match home {
            Some(h) => Some(h@),
            None => None,
        }),
{
    let p = str_chars(path);
    match home {
        None => string_from_chars(&p),
        Some(h) => {
            let hc = str_chars(h.as_str());
            if p.len() >= 2 && p[0] == '~' && p[1] == '/' {
                let mut out: Vec<char> = Vec::new();
                let rest_abs = p.len() > 2 && p[2] == '/';
                if !rest_abs {
                    let mut i: usize = 0;
                    while i < hc.len()
                        invariant
                            i <= hc.len(),
                            out@ == hc@.subrange(0, i as int),
                        decreases hc.len() - i,
                    {
                        out.push(hc[i]);
                        i = i + 1;
                        assert(out@ =~= hc@.subrange(0, i as int));
                    }
                    assert(hc@.subrange(0, hc@.len() as int) =~= hc@);
                    if hc.len() > 0 && hc[hc.len() - 1] != '/' {
                        out.push('/');
                    }
                }
                let ghost mid = out@;
                let mut j: usize = 2;
                while j < p.len()
                    invariant
                        2 <= j <= p.len(),
                        out@ == mid + p@.subrange(2, j as int),
                    decreases p.len() - j,
                {
                    out.push(p[j]);
                    j = j + 1;
                    assert(out@ =~= mid + p@.subrange(2, j as int));
                }
                assert(p@.subrange(2, p@.len() as int) =~= p@.skip(2));
                assert(mid + p@.skip(2) =~= expanded(p@, Some(hc@)));
                string_from_chars(&out)
            } else if p.len() == 1 && p[0] == '~' {
                assert(p@ =~= seq!['~']);
                string_from_chars(&hc)
            } else {
                assert(p@ != seq!['~']);
                string_from_chars(&p)
            }
        },
    }
}

impl Config {
    /// The data directory, with `~` expanded against `home`.
    pub fn data_dir(&self, home: Option<String>) -> (r: String)
        ensures
            r@ == expanded(self.data_dir@, match home {
                Some(h) => Some(h@),
                None => None,
            }),
    {
        expand_tilde(self.data_dir.as_str(), home)
    }

    /// The export file, with `~` expanded against `home`.
    pub fn export_path(&self, home: Option<String>) -> (r: String)
        ensures
            r@ == expanded(self.export_path@, match home {
                Some(h) => Some(h@),
                None => None,
            }),
    {
        expand_tilde(self.export_path.as_str(), home)
    }
}

} // verus!
