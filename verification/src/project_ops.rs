//! What the commands of the interface do to a project: a note goes into the log entry of
//! the day (a new entry, at the top, where the day has none); a blocker names the first
//! person it mentions and starts on the day; a blocker is resolved on a day; status and
//! priority move round their cycles; and the most recent notes are read off the log.
use vstd::prelude::*;
use crate::date::{today, Date};
use crate::project::{Blocker, BlockerView, LogEntry, LogEntryView, Project, ProjectView};
use crate::project_md::{find_mention, find_mention_of};
use crate::text::{slice, str_chars, string_from_chars};
use crate::status::{Priority, Status};

verus! {

broadcast use vstd::string::group_string_axioms;

/// The position of the first log entry of day `d`.
pub open spec fn first_on(log: Seq<LogEntryView>, d: Date) -> Option<int>
    decreases log.len(),
{
    if log.len() == 0 {
        None
    } else if log[0].date == d {
        Some(0)
    } else {
        match first_on(log.drop_first(), d) {
            Some(k) => Some(k + 1),
            None => None,
        }
    }
}

/// The log after a note of day `d`: appended to that day's first entry, or in a new entry
/// of its own at the top.
pub open spec fn noted_log(log: Seq<LogEntryView>, d: Date, text: Seq<char>) -> Seq<LogEntryView> {
    match first_on(log, d) {
        Some(k) => log.update(k, LogEntryView { date: d, lines: log[k].lines.push(text) }),
        None => seq![LogEntryView { date: d, lines: seq![text] }] + log,
    }
}

/// The first `@handle` that a text mentions.
pub open spec fn first_mention(s: Seq<char>) -> Option<Seq<char>> {
    match find_mention(s, 0) {
        Some((a, e)) => Some(s.subrange(a, e)),
        None => None,
    }
}

/// A new blocker: its text, the person it mentions first, open since day `d`.
pub open spec fn new_blocker(text: Seq<char>, d: Date) -> BlockerView {
    BlockerView { description: text, resolved: false, since: Some(d), resolved_date: None, person: first_mention(text) }
}

proof fn lemma_first_on(log: Seq<LogEntryView>, d: Date, k: int)
    requires
        0 <= k <= log.len(),
        forall|j: int| 0 <= j < k ==> (#[trigger] log[j]).date != d,
    ensures
        k < log.len() && log[k].date == d ==> first_on(log, d) == Some(k),
        k == log.len() ==> first_on(log, d) is None,
    decreases k,
{
    if k > 0 {
        lemma_first_on(log.drop_first(), d, k - 1);
    }
}

pub open spec fn log_view(log: Seq<LogEntry>) -> Seq<LogEntryView> {
    log.map_values(|e: LogEntry| e@)
}

proof fn lemma_first_on_found(log: Seq<LogEntryView>, d: Date)
    ensures
        first_on(log, d) matches Some(k) ==> 0 <= k < log.len() && log[k].date == d && forall|j: int|
            0 <= j < k ==> (#[trigger] log[j]).date != d,
    decreases log.len(),
{
    if log.len() > 0 && log[0].date != d {
        lemma_first_on_found(log.drop_first(), d);
        if let Some(k) = first_on(log, d) {
            assert forall|j: int| 0 <= j < k implies (#[trigger] log[j]).date != d by {
                if j > 0 {
                    assert(log[j] == log.drop_first()[j - 1]);
                }
            }
        }
    }
}

/// A note lands in the day's entry: after it, the log's first entry of that day ends with
/// the note, and the log has gained at most one entry.
pub proof fn lemma_note_lands_in_day(log: Seq<LogEntryView>, d: Date, text: Seq<char>)
    ensures
        first_on(noted_log(log, d, text), d) matches Some(k) && noted_log(log, d, text)[k].lines.last() == text,
        noted_log(log, d, text).len() == log.len() + if first_on(log, d) is Some {
            0int
        } else {
            1int
        },
{
    lemma_first_on_found(log, d);
    let l2 = noted_log(log, d, text);
    match first_on(log, d) {
        Some(k) => {
            assert forall|j: int| 0 <= j < k implies (#[trigger] l2[j]).date != d by {
                assert(l2[j] == log[j]);
            }
            lemma_first_on(l2, d, k);
        },
        None => {
            lemma_first_on(l2, d, 0);
        },
    }
}

impl Project {
    /// Adds a note to the log under day `day`.
    pub fn add_note_on(&mut self, day: Date, text: &str)
        ensures
            final(self)@ == (ProjectView { log: noted_log(old(self)@.log, day, text@), ..old(self)@ }),
    {
        let ghost before = self@;
        let mut k: usize = 0;
        while k < self.log.len()
            invariant
                k <= self.log.len(),
                self@ == before,
                before == old(self)@,
                forall|j: int| 0 <= j < k ==> (#[trigger] self@.log[j]).date != day,
            decreases self.log.len() - k,
        {
            if self.log[k].date == day {
                proof {
                    lemma_first_on(self@.log, day, k as int);
                }
                let mut e = self.log.remove(k);
                assert(e@ == before.log[k as int]);
                let line = string_from_chars(&str_chars(text));
                let ghost lines_before = e.lines.deep_view();
                e.lines.push(line);
                assert(e.lines.deep_view() =~= lines_before.push(text@));
                let ghost new_entry = LogEntryView { date: day, lines: before.log[k as int].lines.push(text@) };
                assert(e@ == new_entry);
                self.log.insert(k, e);
                assert(self@.log =~= before.log.update(k as int, new_entry));
                assert(self@ == (ProjectView { log: noted_log(before.log, day, text@), ..before }));
                return;
            }
            k = k + 1;
        }
        proof {
            lemma_first_on(self@.log, day, k as int);
        }
        let first = LogEntry { date: day, lines: vec![string_from_chars(&str_chars(text))] };
        assert(first@.lines =~= seq![text@]);
        self.log.insert(0, first);
        assert(self@.log =~= seq![LogEntryView { date: day, lines: seq![text@] }] + before.log);
    }

    /// Adds a note to today's log entry (today in the local time zone).
    pub fn add_note(&mut self, text: &str)
        ensures
            exists|d: Date|
                d.wf() && final(self)@ == (ProjectView {
                    log: #[trigger] noted_log(old(self)@.log, d, text@),
                    ..old(self)@
                }),
    {
        let d = today();
        self.add_note_on(d, text);
    }

    /// Logs a blocker open since day `day`, naming the first person its text mentions.
    pub fn add_blocker_on(&mut self, day: Date, text: &str)
        ensures
            final(self)@ == (ProjectView {
                blockers: old(self)@.blockers.push(new_blocker(text@, day)),
                ..old(self)@
            }),
    {
        let s = str_chars(text);
        let person = match find_mention_of(&s) {
            Some((a, e)) => Some(string_from_chars(&slice(&s, a, e))),
            None => None,
        };
        let b = Blocker {
            description: string_from_chars(&s),
            resolved: false,
            since: Some(day),
            resolved_date: None,
            person,
        };
        let ghost before = self@.blockers;
        self.blockers.push(b);
        assert(self@.blockers =~= before.push(new_blocker(text@, day)));
    }

    /// Logs a blocker open since today (in the local time zone).
    pub fn add_blocker(&mut self, text: &str)
        ensures
            exists|d: Date|
                d.wf() && final(self)@ == (ProjectView {
                    blockers: old(self)@.blockers.push(#[trigger] new_blocker(text@, d)),
                    ..old(self)@
                }),
    {
        let d = today();
        self.add_blocker_on(d, text);
    }
}

/// Every note line of a log, newest entry first, each entry's lines in order.
pub open spec fn all_notes(log: Seq<LogEntryView>) -> Seq<Seq<char>>
    decreases log.len(),
{
    if log.len() == 0 {
        Seq::empty()
    } else {
        all_notes(log.drop_last()) + log.last().lines
    }
}

impl Project {
    /// The ten most recent notes: the log's lines in order (the log keeps the newest day
    /// first), at most ten.
    pub fn collect_recent_notes(project: &Project) -> (r: Vec<String>)
        ensures
            r.deep_view() == all_notes(project@.log).take(
                if all_notes(project@.log).len() < 10 {
                    all_notes(project@.log).len() as int
                } else {
                    10
                },
            ),
    {
        let ghost lv = project@.log;
        let mut notes: Vec<String> = Vec::new();
        let mut i: usize = 0;
        while i < project.log.len()
            invariant
                i <= project.log.len(),
                lv == project@.log,
                notes.deep_view() == all_notes(lv.subrange(0, i as int)),
            decreases project.log.len() - i,
        {
            let ghost pre = lv.subrange(0, i as int);
            let ghost nxt = lv.subrange(0, i + 1);
            assert(nxt.drop_last() =~= pre);
            assert(nxt.last() == project.log[i as int]@);
            let lines = &project.log[i].lines;
            let ghost base = notes.deep_view();
            let mut j: usize = 0;
            while j < lines.len()
                invariant
                    j <= lines.len(),
                    notes.deep_view() == base + lines.deep_view().subrange(0, j as int),
                decreases lines.len() - j,
            {
                let ghost before = notes.deep_view();
                notes.push(lines[j].clone());
                assert(notes.deep_view() =~= before.push(lines.deep_view()[j as int]));
                assert(lines.deep_view().subrange(0, j + 1) =~= lines.deep_view().subrange(0, j as int).push(
                    lines.deep_view()[j as int],
                ));
                j = j + 1;
            }
            assert(lines.deep_view().subrange(0, lines.len() as int) =~= lines.deep_view());
            assert(notes.deep_view() =~= all_notes(nxt));
            i = i + 1;
        }
        assert(lv.subrange(0, project.log.len() as int) =~= lv);
        notes.truncate(10);
        assert(notes.deep_view() =~= all_notes(lv).take(
            if all_notes(lv).len() < 10 {
                all_notes(lv).len() as int
            } else {
                10
            },
        ));
        notes
    }
}

// ── Cycling status and priority, resolving blockers ──────────────────

/// The status after `s` in the cycle active, blocked, pending, parked, done.
pub open spec fn next_status(s: Status) -> Status {
    match s {
        Status::Active => Status::Blocked,
        Status::Blocked => Status::Pending,
        Status::Pending => Status::Parked,
        Status::Parked => Status::Done,
        Status::Done => Status::Active,
    }
}

/// The priority after `p` in the cycle high, medium, low.
pub open spec fn next_priority(p: Priority) -> Priority {
    match p {
        Priority::High => Priority::Medium,
        Priority::Medium => Priority::Low,
        Priority::Low => Priority::High,
    }
}

/// Five steps of the status cycle come back to the start, and no fewer do.
pub proof fn lemma_status_cycle_period(s: Status)
    ensures
        next_status(next_status(next_status(next_status(next_status(s))))) == s,
        next_status(s) != s,
{
}

/// Three steps of the priority cycle come back to the start, and no fewer do.
pub proof fn lemma_priority_cycle_period(p: Priority)
    ensures
        next_priority(next_priority(next_priority(p))) == p,
        next_priority(p) != p,
{
}

impl Project {
    /// Moves the project to the next status of the cycle.
    pub fn cycle_status(&mut self)
        ensures
            final(self)@ == (ProjectView { status: next_status(old(self)@.status), ..old(self)@ }),
    {
        self.status = match self.status {
            Status::Active => Status::Blocked,
            Status::Blocked => Status::Pending,
            Status::Pending => Status::Parked,
            Status::Parked => Status::Done,
            Status::Done => Status::Active,
        };
    }

    /// Moves the project to the next priority of the cycle.
    pub fn cycle_priority(&mut self)
        ensures
            final(self)@ == (ProjectView { priority: next_priority(old(self)@.priority), ..old(self)@ }),
    {
        self.priority = match self.priority {
            Priority::High => Priority::Medium,
            Priority::Medium => Priority::Low,
            Priority::Low => Priority::High,
        };
    }

    /// Marks the blocker at `index` resolved on day `day`; false, with the project
    /// unchanged, where there is no such blocker.
    pub fn resolve_blocker_on(&mut self, index: usize, day: Date) -> (found: bool)
        ensures
            found == (index < old(self)@.blockers.len()),
            found ==> final(self)@ == (ProjectView {
                blockers: old(self)@.blockers.update(
                    index as int,
                    BlockerView { resolved: true, resolved_date: Some(day), ..old(self)@.blockers[index as int] },
                ),
                ..old(self)@
            }),
            !found ==> final(self)@ == old(self)@,
    {
        if index >= self.blockers.len() {
            return false;
        }
        let ghost before = self@;
        let mut b = self.blockers.remove(index);
        assert(b@ == before.blockers[index as int]);
        b.resolved = true;
        b.resolved_date = Some(day);
        self.blockers.insert(index, b);
        assert(self@.blockers =~= before.blockers.update(
            index as int,
            BlockerView { resolved: true, resolved_date: Some(day), ..before.blockers[index as int] },
        ));
        true
    }
}

} // verus!
