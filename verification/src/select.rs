//! What a choice in a selection list does: the list's text is the chosen row's number; the
//! issue lists hold the issues that are not done (to cycle or close one) or the top-level
//! issues (to pick a parent).
use vstd::prelude::*;
use crate::date::Date;
use crate::issue::{IssueFile, IssueFileView, IssueView};
use crate::modals::SelectAction;
use crate::project::{Project, ProjectView};
use crate::status::{issue_status_at, issue_status_index, issue_status_name, IssueStatus};
use crate::text::{dec, parse_u64, parse_u64_text, push_dec, push_str, str_chars, string_from_chars, trim, trimmed};

verus! {

broadcast use vstd::string::group_string_axioms;

/// The chosen row: the trimmed text read as a number.
pub open spec fn chosen_row(text: Seq<char>) -> Option<usize> {
    match parse_u64(trim(text)) {
        Some(n) => if n <= usize::MAX {
            Some(n as usize)
        } else {
            None
        },
        None => None,
    }
}

/// Reads the chosen row's number from a selection list's text (`text.trim().parse()`).
pub fn chosen_row_of(text: &str) -> (r: Option<usize>)
    ensures
        r == chosen_row(text@),
{
    let t = string_from_chars(&trimmed(&str_chars(text)));
    match parse_u64_text(t.as_str()) {
        Some(n) => if n <= usize::MAX as u64 {
            Some(n as usize)
        } else {
            None
        },
        None => None,
    }
}

/// The ids of the issues that are not done, in file order.
pub open spec fn open_ids(is: Seq<IssueView>) -> Seq<u32>
    decreases is.len(),
{
    if is.len() == 0 {
        Seq::empty()
    } else if is.last().status != IssueStatus::Done {
        open_ids(is.drop_last()).push(is.last().id)
    } else {
        open_ids(is.drop_last())
    }
}

/// The ids of the top-level issues, in file order.
pub open spec fn top_ids(is: Seq<IssueView>) -> Seq<u32>
    decreases is.len(),
{
    if is.len() == 0 {
        Seq::empty()
    } else if is.last().parent_id is None {
        top_ids(is.drop_last()).push(is.last().id)
    } else {
        top_ids(is.drop_last())
    }
}

/// The ids of the issues that are not done, in file order.
pub fn open_issue_ids(f: &IssueFile) -> (r: Vec<u32>)
    ensures
        r@ == open_ids(f@.issues),
{
    let mut out: Vec<u32> = Vec::new();
    let mut i: usize = 0;
    while i < f.issues.len()
        invariant
            i <= f.issues.len(),
            out@ == open_ids(f@.issues.subrange(0, i as int)),
        decreases f.issues.len() - i,
    {
        assert(f@.issues.subrange(0, i + 1).drop_last() =~= f@.issues.subrange(0, i as int));
        assert(f@.issues[i as int] == f.issues@[i as int]@);
        if f.issues[i].status != IssueStatus::Done {
            out.push(f.issues[i].id);
        }
        i = i + 1;
    }
    assert(f@.issues.subrange(0, i as int) =~= f@.issues);
    out
}

/// The ids of the top-level issues, in file order.
pub fn top_issue_ids(f: &IssueFile) -> (r: Vec<u32>)
    ensures
        r@ == top_ids(f@.issues),
{
    let mut out: Vec<u32> = Vec::new();
    let mut i: usize = 0;
    while i < f.issues.len()
        invariant
            i <= f.issues.len(),
            out@ == top_ids(f@.issues.subrange(0, i as int)),
        decreases f.issues.len() - i,
    {
        assert(f@.issues.subrange(0, i + 1).drop_last() =~= f@.issues.subrange(0, i as int));
        assert(f@.issues[i as int] == f.issues@[i as int]@);
        if f.issues[i].parent_id.is_none() {
            out.push(f.issues[i].id);
        }
        i = i + 1;
    }
    assert(f@.issues.subrange(0, i as int) =~= f@.issues);
    out
}

/// The position of the first issue with id `id`.
pub open spec fn first_with_id(is: Seq<IssueView>, id: u32, k: int) -> Option<int>
    decreases is.len() - k,
{
    if k < 0 || k >= is.len() {
        None
    } else if is[k].id == id {
        Some(k)
    } else {
        first_with_id(is, id, k + 1)
    }
}

/// The status after one step round the cycle, forward or back.
pub open spec fn cycled(s: IssueStatus, reverse: bool) -> IssueStatus {
    if reverse {
        issue_status_at((issue_status_index(s) + 3) % 4)
    } else {
        issue_status_at((issue_status_index(s) + 1) % 4)
    }
}

/// Cycling the status of the chosen issue of the list of issues not done, on `today`: the
/// issue file after it, and the id and new status of the issue, where the row exists.
pub open spec fn cycle_step(f: IssueFileView, row: int, reverse: bool, today: Date) -> (
    IssueFileView,
    Option<(u32, IssueStatus)>,
) {
    let ids = open_ids(f.issues);
    if 0 <= row < ids.len() {
        match first_with_id(f.issues, ids[row], 0) {
            Some(k) => {
                let s = cycled(f.issues[k].status, reverse);
                let i = IssueView {
                    status: s,
                    closed: if s == IssueStatus::Done {
                        Some(today)
                    } else {
                        None
                    },
                    ..f.issues[k]
                };
                (IssueFileView { issues: f.issues.update(k, i), ..f }, Some((ids[row], s)))
            },
            None => (f, None),
        }
    } else {
        (f, None)
    }
}

/// Moves the chosen issue (a row of the list of issues not done) one step round the status
/// cycle, forward or back; it is closed on `today` where it becomes done, and reopened
/// otherwise. Gives back its id and new status, where the row exists.
pub fn cycle_chosen_issue(f: &mut IssueFile, row: usize, reverse: bool, today: Date) -> (r: Option<
    (u32, IssueStatus),
>)
    ensures
        (final(f)@, r) == cycle_step(old(f)@, row as int, reverse, today),
{
    let ids = open_issue_ids(f);
    if row >= ids.len() {
        return None;
    }
    let id = ids[row];
    assert(id == open_ids(old(f)@.issues)[row as int]);
    let mut k: usize = 0;
    while k < f.issues.len()
        invariant
            k <= f.issues.len(),
            *f == *old(f),
            ids@ == open_ids(old(f)@.issues),
            row < ids@.len(),
            id == ids@[row as int],
            first_with_id(f@.issues, id, k as int) == first_with_id(f@.issues, id, 0),
        decreases f.issues.len() - k,
    {
        assert(f@.issues[k as int] == f.issues@[k as int]@);
        if f.issues[k].id == id {
            let ghost before = f@;
            assert(before == old(f)@);
            assert(first_with_id(before.issues, id, k as int) == Some(k as int));
            let old_status = f.issues[k].status;
            assert(old_status == before.issues[k as int].status);
            let s = if reverse {
                old_status.cycle_reverse()
            } else {
                old_status.cycle()
            };
            let mut issue = f.issues.remove(k);
            issue.status = s;
            issue.closed = if s == IssueStatus::Done {
                Some(today)
            } else {
                None
            };
            f.issues.insert(k, issue);
            proof {
                let iv = IssueView {
                    status: s,
                    closed: if s == IssueStatus::Done {
                        Some(today)
                    } else {
                        None
                    },
                    ..before.issues[k as int]
                };
                assert(s == cycled(old_status, reverse));
                assert(f@.issues[k as int] == iv);
                assert(f@.issues =~= before.issues.update(k as int, iv));
                assert(f@ == IssueFileView { issues: before.issues.update(k as int, iv), ..before });
            }
            return Some((id, s));
        }
        k = k + 1;
    }
    None
}

/// The message shown after cycling: `#<id> -> <status>`.
pub fn cycled_message(id: u32, s: IssueStatus) -> (m: String)
    ensures
        m@ == "#"@ + dec(id as nat) + " -> "@ + issue_status_name(s),
{
    let mut out: Vec<char> = Vec::new();
    push_str(&mut out, "#");
    push_dec(&mut out, id as u64);
    push_str(&mut out, " -> ");
    let name = s.to_string();
    push_str(&mut out, name.as_str());
    string_from_chars(&out)
}

// ── Moving a blocker between projects ───────────────────────────────

/// The projects a blocker can move to: the position and name of each project whose slug is
/// not the source's, in order.
pub open spec fn move_targets(ps: Seq<(Seq<char>, Seq<char>)>, source: Seq<char>) -> Seq<(usize, Seq<char>)>
    decreases ps.len(),
{
    if ps.len() == 0 {
        Seq::empty()
    } else if ps.last().0 != source {
        move_targets(ps.drop_last(), source).push(((ps.len() - 1) as usize, ps.last().1))
    } else {
        move_targets(ps.drop_last(), source)
    }
}

pub open spec fn pairs_view(ps: Seq<(String, String)>) -> Seq<(Seq<char>, Seq<char>)> {
    ps.map_values(|p: (String, String)| (p.0@, p.1@))
}

fn same(a: &str, b: &str) -> (r: bool)
    ensures
        r == (a@ == b@),
{
    let x = str_chars(a);
    let y = str_chars(b);
    if x.len() != y.len() {
        return false;
    }
    let mut i: usize = 0;
    while i < x.len()
        invariant
            i <= x.len() == y.len(),
            x@ == a@,
            y@ == b@,
            forall|k: int| 0 <= k < i ==> x@[k] == y@[k],
        decreases x.len() - i,
    {
        if x[i] != y[i] {
            return false;
        }
        i = i + 1;
    }
    assert(x@ =~= y@);
    true
}

/// The destinations offered for a blocker of project `source`, from the dashboard's projects
/// (slug and name): every other project's position and name, in order.
pub fn move_destinations(projects: &Vec<(String, String)>, source: &str) -> (r: Vec<(usize, String)>)
    ensures
        r@.map_values(|x: (usize, String)| (x.0, x.1@)) == move_targets(pairs_view(projects@), source@),
{
    let ghost pv = pairs_view(projects@);
    let mut out: Vec<(usize, String)> = Vec::new();
    let mut i: usize = 0;
    while i < projects.len()
        invariant
            i <= projects.len(),
            pv == pairs_view(projects@),
            out@.map_values(|x: (usize, String)| (x.0, x.1@)) == move_targets(pv.subrange(0, i as int), source@),
        decreases projects.len() - i,
    {
        let ghost pre = pv.subrange(0, i as int);
        assert(pv.subrange(0, i + 1).drop_last() =~= pre);
        assert(pv.subrange(0, i + 1).last() == (projects@[i as int].0@, projects@[i as int].1@));
        if !same(projects[i].0.as_str(), source) {
            let ghost before = out@.map_values(|x: (usize, String)| (x.0, x.1@));
            out.push((i, string_from_chars(&str_chars(projects[i].1.as_str()))));
            assert(out@.map_values(|x: (usize, String)| (x.0, x.1@)) =~= before.push(
                (i, projects@[i as int].1@),
            ));
        }
        i = i + 1;
    }
    assert(pv.subrange(0, i as int) =~= pv);
    out
}

/// Moves blocker `index` of `source` to the end of `dest`'s blockers and gives back its
/// description; where there is no such blocker, nothing changes and `None` comes back.
pub fn move_blocker(source: &mut Project, index: usize, dest: &mut Project) -> (r: Option<String>)
    ensures
        index < old(source)@.blockers.len() ==> {
            &&& r matches Some(d) && d@ == old(source)@.blockers[index as int].description
            &&& final(source)@ == (ProjectView {
                blockers: old(source)@.blockers.remove(index as int),
                ..old(source)@
            })
            &&& final(dest)@ == (ProjectView {
                blockers: old(dest)@.blockers.push(old(source)@.blockers[index as int]),
                ..old(dest)@
            })
        },
        index >= old(source)@.blockers.len() ==> r is None && final(source)@ == old(source)@
            && final(dest)@ == old(dest)@,
{
    if index >= source.blockers.len() {
        return None;
    }
    let ghost sb = source@.blockers;
    let ghost db = dest@.blockers;
    let b = source.blockers.remove(index);
    assert(b@ == sb[index as int]);
    assert(source@.blockers =~= sb.remove(index as int));
    let desc = string_from_chars(&str_chars(b.description.as_str()));
    dest.blockers.push(b);
    assert(dest@.blockers =~= db.push(sb[index as int]));
    Some(desc)
}

// ── Routing a choice ─────────────────────────────────────────────────

/// What the routing of a choice needs to know of the application's state.
pub struct SelectContext {
    /// The positions the rows of the open list stand for (blockers, or dashboard projects).
    pub indices: Vec<usize>,
    /// The project whose blocker is being resolved.
    pub unblock_slug: String,
    /// The project a blocker is being moved away from.
    pub move_slug: String,
    /// The slugs of the dashboard's projects, in order.
    pub dashboard: Vec<String>,
    /// The project the issue and note lists are about, if any.
    pub targeted: Option<String>,
    /// That project's issues.
    pub issues: IssueFile,
    /// That project's recent notes, as the note list shows them.
    pub notes: Vec<String>,
}

/// What the application is to do with a choice.
#[derive(Debug, Clone)]
pub enum SelectEffect {
    Nothing,
    /// Resolve blocker (second) of the project (first).
    ResolveBlocker(String, usize),
    /// Ask where blocker (second) of the project (first) goes.
    AskMoveDestination(String, usize),
    /// Move blocker (second) of the project (first) to the project (third).
    MoveBlocker(String, usize, String),
    /// Ask for the title of a sub-issue of the issue with this id and title.
    AskSubIssue(u32, String),
    /// Cycle the status of the chosen issue of the project's list of issues not done
    /// (`cycle_chosen_issue`), backwards where the flag says so.
    CycleIssue(String, usize, bool),
    /// Close the issue with this id in the project.
    CloseIssue(String, u32),
    /// Clear the project's pinned issue.
    Unpin(String),
    /// Pin the issue with this id (and title) on the project.
    Pin(String, u32, String),
    /// Create an issue in the project with this title.
    IssueFromNote(String, String),
    /// Log a pause of this kind, with this message.
    Pause(String, String),
    /// Ask the first end-of-day question.
    AskShipped,
}

pub enum SelectEffectView {
    Nothing,
    ResolveBlocker(Seq<char>, usize),
    AskMoveDestination(Seq<char>, usize),
    MoveBlocker(Seq<char>, usize, Seq<char>),
    AskSubIssue(u32, Seq<char>),
    CycleIssue(Seq<char>, usize, bool),
    CloseIssue(Seq<char>, u32),
    Unpin(Seq<char>),
    Pin(Seq<char>, u32, Seq<char>),
    IssueFromNote(Seq<char>, Seq<char>),
    Pause(Seq<char>, Seq<char>),
    AskShipped,
}

impl View for SelectEffect {
    type V = SelectEffectView;

    open spec fn view(&self) -> SelectEffectView {
        match self {
            SelectEffect::Nothing => SelectEffectView::Nothing,
            SelectEffect::ResolveBlocker(s, i) => SelectEffectView::ResolveBlocker(s@, *i),
            SelectEffect::AskMoveDestination(s, i) => SelectEffectView::AskMoveDestination(s@, *i),
            SelectEffect::MoveBlocker(s, i, d) => SelectEffectView::MoveBlocker(s@, *i, d@),
            SelectEffect::AskSubIssue(id, t) => SelectEffectView::AskSubIssue(*id, t@),
            SelectEffect::CycleIssue(s, r, b) => SelectEffectView::CycleIssue(s@, *r, *b),
            SelectEffect::CloseIssue(s, id) => SelectEffectView::CloseIssue(s@, *id),
            SelectEffect::Unpin(s) => SelectEffectView::Unpin(s@),
            SelectEffect::Pin(s, id, t) => SelectEffectView::Pin(s@, *id, t@),
            SelectEffect::IssueFromNote(s, t) => SelectEffectView::IssueFromNote(s@, t@),
            SelectEffect::Pause(k, m) => SelectEffectView::Pause(k@, m@),
            SelectEffect::AskShipped => SelectEffectView::AskShipped,
        }
    }
}

/// The issues that are not done, in file order.
pub open spec fn open_issue_list(is: Seq<IssueView>) -> Seq<IssueView>
    decreases is.len(),
{
    if is.len() == 0 {
        Seq::empty()
    } else if is.last().status != IssueStatus::Done {
        open_issue_list(is.drop_last()).push(is.last())
    } else {
        open_issue_list(is.drop_last())
    }
}

/// The top-level issues, in file order.
pub open spec fn top_issue_list(is: Seq<IssueView>) -> Seq<IssueView>
    decreases is.len(),
{
    if is.len() == 0 {
        Seq::empty()
    } else if is.last().parent_id is None {
        top_issue_list(is.drop_last()).push(is.last())
    } else {
        top_issue_list(is.drop_last())
    }
}

/// What choosing row `row` of the list opened for `action` asks for.
pub open spec fn select_step(
    action: SelectAction,
    row: usize,
    indices: Seq<usize>,
    unblock_slug: Seq<char>,
    move_slug: Seq<char>,
    dashboard: Seq<Seq<char>>,
    targeted: Option<Seq<char>>,
    issues: Seq<IssueView>,
    notes: Seq<Seq<char>>,
) -> SelectEffectView {
    match action {
        SelectAction::ChooseBlocker => if row < indices.len() {
            SelectEffectView::ResolveBlocker(unblock_slug, indices[row as int])
        } else {
            SelectEffectView::Nothing
        },
        SelectAction::MoveBlockerSource => if row < indices.len() {
            SelectEffectView::AskMoveDestination(move_slug, indices[row as int])
        } else {
            SelectEffectView::Nothing
        },
        SelectAction::MoveBlockerDest(src) => if row < indices.len() && indices[row as int]
            < dashboard.len() {
            SelectEffectView::MoveBlocker(move_slug, src, dashboard[indices[row as int] as int])
        } else {
            SelectEffectView::Nothing
        },
        SelectAction::StopWorkChoice => if row == 0 {
            SelectEffectView::Pause("Break"@, "Break logged."@)
        } else if row == 1 {
            SelectEffectView::Pause("Lunch"@, "Lunch logged."@)
        } else if row == 2 {
            SelectEffectView::AskShipped
        } else {
            SelectEffectView::Nothing
        },
        _ => match targeted {
            None => SelectEffectView::Nothing,
            Some(slug) => match action {
                SelectAction::PickParentIssue => if row < top_issue_list(issues).len() {
                    SelectEffectView::AskSubIssue(
                        top_issue_list(issues)[row as int].id,
                        top_issue_list(issues)[row as int].title,
                    )
                } else {
                    SelectEffectView::Nothing
                },
                SelectAction::PickIssueToCycle => SelectEffectView::CycleIssue(slug, row, false),
                SelectAction::PickIssueToCycleReverse => SelectEffectView::CycleIssue(slug, row, true),
                SelectAction::PickIssueToClose => if row < open_issue_list(issues).len() {
                    SelectEffectView::CloseIssue(slug, open_issue_list(issues)[row as int].id)
                } else {
                    SelectEffectView::Nothing
                },
                SelectAction::PinIssue => if row == 0 {
                    SelectEffectView::Unpin(slug)
                } else if row - 1 < open_issue_list(issues).len() {
                    SelectEffectView::Pin(
                        slug,
                        open_issue_list(issues)[row - 1].id,
                        open_issue_list(issues)[row - 1].title,
                    )
                } else {
                    SelectEffectView::Nothing
                },
                SelectAction::NoteToIssue => if row < notes.len() {
                    SelectEffectView::IssueFromNote(slug, notes[row as int])
                } else {
                    SelectEffectView::Nothing
                },
                _ => SelectEffectView::Nothing,
            },
        },
    }
}

fn copy_str(s: &String) -> (r: String)
    ensures
        r@ == s@,
{
    string_from_chars(&str_chars(s.as_str()))
}

pub open spec fn id_titles(l: Seq<IssueView>) -> Seq<(u32, Seq<char>)> {
    l.map_values(|i: IssueView| (i.id, i.title))
}

pub open spec fn kept_list(is: Seq<IssueView>, open: bool) -> Seq<IssueView> {
    if open {
        open_issue_list(is)
    } else {
        top_issue_list(is)
    }
}

/// The id and title of the issues that are not done (`open`), or of the top-level ones.
pub fn kept_issues(f: &IssueFile, open: bool) -> (r: Vec<(u32, String)>)
    ensures
        r@.map_values(|x: (u32, String)| (x.0, x.1@)) == id_titles(kept_list(f@.issues, open)),
{
    let ghost iv = f@.issues;
    let mut out: Vec<(u32, String)> = Vec::new();
    let mut i: usize = 0;
    while i < f.issues.len()
        invariant
            i <= f.issues.len(),
            iv == f@.issues,
            out@.map_values(|x: (u32, String)| (x.0, x.1@)) == id_titles(
                kept_list(iv.subrange(0, i as int), open),
            ),
        decreases f.issues.len() - i,
    {
        let ghost pre = iv.subrange(0, i as int);
        let ghost nxt = iv.subrange(0, i + 1);
        assert(nxt.drop_last() =~= pre);
        assert(nxt.last() == iv[i as int]);
        assert(iv[i as int] == f.issues@[i as int]@);
        let keep = if open {
            f.issues[i].status != IssueStatus::Done
        } else {
            f.issues[i].parent_id.is_none()
        };
        if keep {
            let ghost before = out@.map_values(|x: (u32, String)| (x.0, x.1@));
            out.push((f.issues[i].id, copy_str(&f.issues[i].title)));
            assert(kept_list(nxt, open) == kept_list(pre, open).push(iv[i as int]));
            assert(out@.map_values(|x: (u32, String)| (x.0, x.1@)) =~= before.push(
                (iv[i as int].id, iv[i as int].title),
            ));
            assert(id_titles(kept_list(nxt, open)) =~= id_titles(kept_list(pre, open)).push(
                (iv[i as int].id, iv[i as int].title),
            ));
        } else {
            assert(kept_list(nxt, open) == kept_list(pre, open));
        }
        i = i + 1;
    }
    assert(iv.subrange(0, i as int) =~= iv);
    out
}

fn kept_at(f: &IssueFile, open: bool, row: usize) -> (r: Option<(u32, String)>)
    ensures
        match r {
            Some((id, t)) => row < kept_list(f@.issues, open).len() && id == kept_list(
                f@.issues,
                open,
            )[row as int].id && t@ == kept_list(f@.issues, open)[row as int].title,
            None => row >= kept_list(f@.issues, open).len(),
        },
{
    let l = kept_issues(f, open);
    let ghost kl = kept_list(f@.issues, open);
    let ghost lv = l@.map_values(|x: (u32, String)| (x.0, x.1@));
    assert(lv.len() == l@.len());
    assert(id_titles(kl).len() == kl.len());
    if row < l.len() {
        assert(lv[row as int] == (l@[row as int].0, l@[row as int].1@));
        assert(id_titles(kl)[row as int] == (kl[row as int].id, kl[row as int].title));
        Some((l[row].0, copy_str(&l[row].1)))
    } else {
        None
    }
}

/// Decides what choosing row `row` of a selection list asks for (see `select_step`): a
/// blocker to resolve or move and where, the parent of a new sub-issue, the issue to cycle,
/// close or pin (row 0 of the pin list clears the pin), the note to turn into an issue, or
/// how to stop working.
pub fn select_effect(action: &SelectAction, row: usize, ctx: &SelectContext) -> (e: SelectEffect)
    ensures
        e@ == select_step(
            *action,
            row,
            ctx.indices@,
            ctx.unblock_slug@,
            ctx.move_slug@,
            ctx.dashboard.deep_view(),
            match &ctx.targeted {
                Some(s) => Some(s@),
                None => None,
            },
            ctx.issues@.issues,
            ctx.notes.deep_view(),
        ),
{
    match action {
        SelectAction::ChooseBlocker => {
            if row < ctx.indices.len() {
                SelectEffect::ResolveBlocker(copy_str(&ctx.unblock_slug), ctx.indices[row])
            } else {
                SelectEffect::Nothing
            }
        },
        SelectAction::MoveBlockerSource => {
            if row < ctx.indices.len() {
                SelectEffect::AskMoveDestination(copy_str(&ctx.move_slug), ctx.indices[row])
            } else {
                SelectEffect::Nothing
            }
        },
        SelectAction::MoveBlockerDest(src) => {
            if row < ctx.indices.len() && ctx.indices[row] < ctx.dashboard.len() {
                let k = ctx.indices[row];
                SelectEffect::MoveBlocker(copy_str(&ctx.move_slug), *src, copy_str(&ctx.dashboard[k]))
            } else {
                SelectEffect::Nothing
            }
        },
        SelectAction::StopWorkChoice => {
            if row == 0 {
                SelectEffect::Pause(string_from_chars(&str_chars("Break")), string_from_chars(&str_chars("Break logged.")))
            } else if row == 1 {
                SelectEffect::Pause(string_from_chars(&str_chars("Lunch")), string_from_chars(&str_chars("Lunch logged.")))
            } else if row == 2 {
                SelectEffect::AskShipped
            } else {
                SelectEffect::Nothing
            }
        },
        _ => {
            let slug = match &ctx.targeted {
                Some(s) => copy_str(s),
                None => {
                    return SelectEffect::Nothing;
                },
            };
            match action {
                SelectAction::PickParentIssue => match kept_at(&ctx.issues, false, row) {
                    Some((id, t)) => SelectEffect::AskSubIssue(id, t),
                    None => SelectEffect::Nothing,
                },
                SelectAction::PickIssueToCycle => SelectEffect::CycleIssue(slug, row, false),
                SelectAction::PickIssueToCycleReverse => SelectEffect::CycleIssue(slug, row, true),
                SelectAction::PickIssueToClose => match kept_at(&ctx.issues, true, row) {
                    Some((id, _)) => SelectEffect::CloseIssue(slug, id),
                    None => SelectEffect::Nothing,
                },
                SelectAction::PinIssue => {
                    if row == 0 {
                        SelectEffect::Unpin(slug)
                    } else {
                        match kept_at(&ctx.issues, true, row - 1) {
                            Some((id, t)) => SelectEffect::Pin(slug, id, t),
                            None => SelectEffect::Nothing,
                        }
                    }
                },
                SelectAction::NoteToIssue => {
                    if row < ctx.notes.len() {
                        SelectEffect::IssueFromNote(slug, copy_str(&ctx.notes[row]))
                    } else {
                        SelectEffect::Nothing
                    }
                },
                _ => SelectEffect::Nothing,
            }
        },
    }
}

} // verus!
