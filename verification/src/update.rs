//! Decisions of the main update step that depend on values alone: which input box an action
//! opens (and the text it starts with), and reading the issue board's status-change message.
use vstd::prelude::*;
use crate::date::{date_text, push_date};
use crate::events::{Action, Focus, ScreenId};
use crate::issue::index_of_char;
use crate::modals::{InputAction, InputModal, SelectAction, SelectModal};
use crate::text::{dec, push_dec, push_str};
use crate::project::{Project, ProjectView};
use crate::status::{parse_issue_status, IssueStatus};
use crate::text::{
    find_at, has_prefix_at, join, lemma_chars_deep_view, parse_u32, parse_u32_range, push_joined,
    slice, str_chars, string_from_chars,
};

verus! {

broadcast use vstd::string::group_string_axioms;

/// The input box an action opens: title, prompt, starting text and what submitting it does.
/// The edits start from the project on screen (`p`), where there is one.
pub open spec fn input_box(a: Action, p: Option<ProjectView>) -> Option<
    (Seq<char>, Seq<char>, Seq<char>, InputAction),
> {
    match a {
        Action::QuickNote => Some(("Quick Note"@, "Note:"@, Seq::empty(), InputAction::QuickNote)),
        Action::QuickBlocker => Some(
            ("Log Blocker"@, "Blocker:"@, Seq::empty(), InputAction::QuickBlocker),
        ),
        Action::QuickDecision | Action::LogDecision => Some(
            ("Log Decision"@, "Decision:"@, Seq::empty(), InputAction::QuickDecision),
        ),
        Action::EditFocus => Some(
            (
                "Edit Focus"@,
                "Focus:"@,
                match p {
                    Some(q) => q.current_focus,
                    None => Seq::empty(),
                },
                InputAction::EditFocus,
            ),
        ),
        Action::AddProject => Some(
            ("Add Project"@, "Project name:"@, Seq::empty(), InputAction::AddProject),
        ),
        Action::EditTags => Some(
            (
                "Edit Tags"@,
                "Tags (comma-separated):"@,
                match p {
                    Some(q) => join(q.tags, ", "@),
                    None => Seq::empty(),
                },
                InputAction::EditTags,
            ),
        ),
        Action::EditTarget => Some(
            (
                "Edit Target"@,
                "Target date (YYYY-MM-DD):"@,
                match p {
                    Some(q) => match q.target {
                        Some(d) => date_text(d),
                        None => Seq::empty(),
                    },
                    None => Seq::empty(),
                },
                InputAction::EditTarget,
            ),
        ),
        Action::MoveBlocker => Some(
            ("Move Blocker"@, "Blocker text:"@, Seq::empty(), InputAction::MoveBlocker),
        ),
        Action::OpenCommandMode => Some(
            (
                "Command"@,
                ":command  (work <slug> / note <text> / block <text> / park <slug> / done / q)"@,
                ":"@,
                InputAction::CommandMode,
            ),
        ),
        Action::AddIssue => Some(("Add Issue"@, "Issue title:"@, Seq::empty(), InputAction::AddIssue)),
        _ => None,
    }
}

pub open spec fn project_opt(p: Option<&Project>) -> Option<ProjectView> {
    match p {
        Some(q) => Some(q@),
        None => None,
    }
}

fn boxed(title: &str, prompt: &str, initial: &str, on_submit: InputAction) -> (r: Option<InputModal>)
    ensures
        r matches Some(m) && m.title@ == title@ && m.prompt@ == prompt@ && m.input@ == initial@
            && m.cursor_pos == initial@.len() && m.on_submit == on_submit,
{
    Some(InputModal::with_initial(title, prompt, initial, on_submit))
}

/// The input box that `action` opens, if it opens one (see `input_box`), with the cursor at
/// the end of its starting text.
pub fn input_box_for(action: &Action, project: Option<&Project>) -> (r: Option<InputModal>)
    ensures
        match (r, input_box(*action, project_opt(project))) {
            (Some(m), Some((t, pr, init, a))) => m.title@ == t && m.prompt@ == pr && m.input@ == init
                && m.cursor_pos == init.len() && m.on_submit == a,
            (None, None) => true,
            _ => false,
        },
{
    proof {
        reveal_strlit("");
    }
    match action {
        Action::QuickNote => boxed("Quick Note", "Note:", "", InputAction::QuickNote),
        Action::QuickBlocker => boxed("Log Blocker", "Blocker:", "", InputAction::QuickBlocker),
        Action::QuickDecision | Action::LogDecision => boxed(
            "Log Decision",
            "Decision:",
            "",
            InputAction::QuickDecision,
        ),
        Action::EditFocus => {
            let initial = match project {
                Some(p) => string_from_chars(&str_chars(p.current_focus.as_str())),
                None => string_from_chars(&Vec::new()),
            };
            boxed("Edit Focus", "Focus:", initial.as_str(), InputAction::EditFocus)
        },
        Action::AddProject => boxed("Add Project", "Project name:", "", InputAction::AddProject),
        Action::EditTags => {
            let mut out: Vec<char> = Vec::new();
            match project {
                Some(p) => {
                    let mut parts: Vec<Vec<char>> = Vec::new();
                    let mut i: usize = 0;
                    while i < p.tags.len()
                        invariant
                            i <= p.tags.len(),
                            parts.deep_view() == p@.tags.subrange(0, i as int),
                        decreases p.tags.len() - i,
                    {
                        let c = str_chars(p.tags[i].as_str());
                        proof {
                            lemma_chars_deep_view(&c);
                        }
                        let ghost before = parts.deep_view();
                        parts.push(c);
                        assert(parts.deep_view() =~= before.push(p@.tags[i as int]));
                        assert(p@.tags.subrange(0, i + 1) =~= p@.tags.subrange(0, i as int).push(
                            p@.tags[i as int],
                        ));
                        i = i + 1;
                    }
                    assert(p@.tags.subrange(0, i as int) =~= p@.tags);
                    push_joined(&mut out, &parts, &str_chars(", "));
                    assert(out@ =~= join(p@.tags, ", "@));
                },
                None => {},
            }
            let initial = string_from_chars(&out);
            boxed("Edit Tags", "Tags (comma-separated):", initial.as_str(), InputAction::EditTags)
        },
        Action::EditTarget => {
            let mut out: Vec<char> = Vec::new();
            match project {
                Some(p) => match p.target {
                    Some(d) => {
                        push_date(&mut out, d);
                        assert(out@ =~= date_text(d));
                    },
                    None => {},
                },
                None => {},
            }
            let initial = string_from_chars(&out);
            boxed(
                "Edit Target",
                "Target date (YYYY-MM-DD):",
                initial.as_str(),
                InputAction::EditTarget,
            )
        },
        Action::MoveBlocker => boxed("Move Blocker", "Blocker text:", "", InputAction::MoveBlocker),
        Action::OpenCommandMode => boxed(
            "Command",
            ":command  (work <slug> / note <text> / block <text> / park <slug> / done / q)",
            ":",
            InputAction::CommandMode,
        ),
        Action::AddIssue => boxed("Add Issue", "Issue title:", "", InputAction::AddIssue),
        _ => None,
    }
}

// ── The issue board's status change ─────────────────────────────────

pub open spec fn set_status_prefix() -> Seq<char> {
    "issue_board_set_status:"@
}

/// The issue board asks for a status change with a message
/// `issue_board_set_status:<slug>:<id>:<status>`: the slug, the id (0 where it is not a
/// number) and the status, where the message has all four parts and the status is a status
/// name.
pub open spec fn set_status_request(msg: Seq<char>) -> Option<(Seq<char>, u32, IssueStatus)> {
    let r = msg.skip(set_status_prefix().len() as int);
    if !has_prefix_at(msg, 0, set_status_prefix()) {
        None
    } else {
        match index_of_char(r, ':') {
            None => None,
            Some(i) => {
                let r2 = r.skip(i + 1);
                match index_of_char(r2, ':') {
                    None => None,
                    Some(j) => match parse_issue_status(r2.skip(j + 1)) {
                        Ok(s) => Some(
                            (
                                r.take(i),
                                match parse_u32(r2.take(j)) {
                                    Some(n) => n,
                                    None => 0,
                                },
                                s,
                            ),
                        ),
                        Err(_) => None,
                    },
                }
            },
        }
    }
}

/// Reads a status change request of the issue board (see `set_status_request`); `None`
/// where the message is not one or is not complete.
pub fn set_status_request_of(msg: &str) -> (r: Option<(String, u32, IssueStatus)>)
    ensures
        match (r, set_status_request(msg@)) {
            (Some((a, n, s)), Some((b, m, t))) => a@ == b && n == m && s == t,
            (None, None) => true,
            _ => false,
        },
{
    let cs = str_chars(msg);
    let pre = str_chars("issue_board_set_status:");
    proof {
        reveal_strlit("issue_board_set_status:");
    }
    let n = cs.len();
    if !crate::text::range_starts_with(&cs, 0, n, &pre) {
        assert(cs@.subrange(0, n as int) =~= cs@);
        return None;
    }
    assert(cs@.subrange(0, n as int) =~= cs@);
    let r = slice(&cs, pre.len(), n);
    assert(r@ =~= msg@.skip(set_status_prefix().len() as int));
    let colon = str_chars(":");
    proof {
        reveal_strlit(":");
        assert(colon@ =~= seq![':']);
    }
    let i = match find_at(&r, 0, &colon) {
        Some(i) => i,
        None => {
            return None;
        },
    };
    let r2 = slice(&r, i + 1, r.len());
    assert(r2@ =~= r@.skip(i + 1));
    let j = match find_at(&r2, 0, &colon) {
        Some(j) => j,
        None => {
            return None;
        },
    };
    let st = slice(&r2, j + 1, r2.len());
    assert(st@ =~= r2@.skip(j + 1));
    let sts = string_from_chars(&st);
    match IssueStatus::parse(sts.as_str()) {
        Ok(s) => {
            let idt = slice(&r2, 0, j);
            assert(idt@ =~= r2@.take(j as int));
            let id = match parse_u32_range(&idt, 0, idt.len()) {
                Some(k) => k,
                None => 0,
            };
            assert(idt@.subrange(0, idt@.len() as int) =~= idt@);
            let slug = slice(&r, 0, i);
            assert(slug@ =~= r@.take(i as int));
            Some((string_from_chars(&slug), id, s))
        },
        Err(_) => None,
    }
}

// ── The interface's own actions ─────────────────────────────────────

/// What the main update step does for the actions that change the interface itself.
#[derive(Debug, Clone)]
pub enum UiEffect {
    Unchanged,
    /// Show or hide the sidebar.
    SidebarVisible(bool),
    /// Move the focus.
    SetFocus(Focus),
    /// Open the help for this screen.
    Help(String),
    /// Open this selection list.
    Select(SelectModal),
    /// Ask to confirm: title and message.
    Confirm(String, String),
    /// Open this input box.
    Input(InputModal),
    /// Show a message.
    Toast(String),
}

/// The label of an issue in a list: `#<id> <title>`.
pub open spec fn issue_label(id: u32, title: Seq<char>) -> Seq<char> {
    "#"@ + dec(id as nat) + " "@ + title
}

pub open spec fn labels(is: Seq<(u32, Seq<char>)>) -> Seq<Seq<char>> {
    is.map_values(|x: (u32, Seq<char>)| issue_label(x.0, x.1))
}

pub open spec fn stop_work_items() -> Seq<Seq<char>> {
    seq!["15 min break"@, "Lunch"@, "Done for day"@]
}

/// Whether `e` is what the update step does for `action`, given the screen shown, whether the
/// sidebar is visible, how many plugins it holds, and the top-level issues (id and title) of
/// the targeted project, where there is one.
pub open spec fn ui_step(
    e: UiEffect,
    action: Action,
    screen: ScreenId,
    sidebar_visible: bool,
    plugin_count: usize,
    tops: Option<Seq<(u32, Seq<char>)>>,
) -> bool {
    match action {
        Action::ToggleSidebar => e matches UiEffect::SidebarVisible(v) && v == !sidebar_visible,
        Action::FocusSidebar => if sidebar_visible && plugin_count > 0 {
            e matches UiEffect::SetFocus(f) && f == Focus::Sidebar(0)
        } else {
            e is Unchanged
        },
        Action::Help => e matches UiEffect::Help(n) && n@ == (match screen {
            ScreenId::ProjectView(_) => "project_view"@,
            _ => "dashboard"@,
        }),
        Action::StopWork => e matches UiEffect::Select(m) && m.title@ == "Stop Working"@
            && m.items.deep_view() == stop_work_items() && m.selected == 0
            && m.on_submit == SelectAction::StopWorkChoice,
        Action::DeleteProject => match screen {
            ScreenId::ProjectView(slug) => e matches UiEffect::Confirm(t, msg) && t@
                == "Delete Project"@ && msg@ == "Delete project '"@ + slug@ + "'?"@,
            _ => e is Unchanged,
        },
        Action::AddSubIssue => match tops {
            None => e is Unchanged,
            Some(ts) => if ts.len() == 0 {
                e matches UiEffect::Toast(m) && m@ == "No issues to add sub-issue to."@
            } else if ts.len() == 1 {
                e matches UiEffect::Input(m) && m.title@ == "Sub-issue of "@ + issue_label(
                    ts[0].0,
                    ts[0].1,
                ) && m.prompt@ == "Sub-issue title:"@ && m.input@ == Seq::<char>::empty()
                    && m.cursor_pos == 0 && m.on_submit == InputAction::AddSubIssue(ts[0].0)
            } else {
                e matches UiEffect::Select(m) && m.title@ == "Pick parent issue"@
                    && m.items.deep_view() == labels(ts) && m.selected == 0
                    && m.on_submit == SelectAction::PickParentIssue
            },
        },
        _ => e is Unchanged,
    }
}

fn label_of(id: u32, title: &String) -> (r: String)
    ensures
        r@ == issue_label(id, title@),
{
    let mut out: Vec<char> = Vec::new();
    push_str(&mut out, "#");
    push_dec(&mut out, id as u64);
    push_str(&mut out, " ");
    push_str(&mut out, title.as_str());
    string_from_chars(&out)
}

/// What the update step does for the actions that change the interface itself (see
/// `ui_step`): toggling and focusing the sidebar, the help, the stop-work choice, the delete
/// confirmation, and choosing the parent of a new sub-issue; `tops` holds the top-level
/// issues (id and title) of the targeted project, where there is one.
pub fn ui_effect(
    action: &Action,
    screen: &ScreenId,
    sidebar_visible: bool,
    plugin_count: usize,
    tops: Option<&Vec<(u32, String)>>,
) -> (e: UiEffect)
    ensures
        ui_step(
            e,
            *action,
            *screen,
            sidebar_visible,
            plugin_count,
            match tops {
                Some(v) => Some(v@.map_values(|x: (u32, String)| (x.0, x.1@))),
                None => None,
            },
        ),
{
    match action {
        Action::ToggleSidebar => UiEffect::SidebarVisible(!sidebar_visible),
        Action::FocusSidebar => {
            if sidebar_visible && plugin_count > 0 {
                UiEffect::SetFocus(Focus::Sidebar(0))
            } else {
                UiEffect::Unchanged
            }
        },
        Action::Help => {
            let n = match screen {
                ScreenId::ProjectView(_) => "project_view",
                _ => "dashboard",
            };
            UiEffect::Help(string_from_chars(&str_chars(n)))
        },
        Action::StopWork => {
            let items = vec![
                string_from_chars(&str_chars("15 min break")),
                string_from_chars(&str_chars("Lunch")),
                string_from_chars(&str_chars("Done for day")),
            ];
            assert(items.deep_view() =~= stop_work_items());
            UiEffect::Select(SelectModal::new("Stop Working", items, SelectAction::StopWorkChoice))
        },
        Action::DeleteProject => match screen {
            ScreenId::ProjectView(slug) => {
                let mut m: Vec<char> = Vec::new();
                push_str(&mut m, "Delete project '");
                push_str(&mut m, slug.as_str());
                push_str(&mut m, "'?");
                UiEffect::Confirm(string_from_chars(&str_chars("Delete Project")), string_from_chars(&m))
            },
            _ => UiEffect::Unchanged,
        },
        Action::AddSubIssue => match tops {
            None => UiEffect::Unchanged,
            Some(ts) => {
                let ghost tv = ts@.map_values(|x: (u32, String)| (x.0, x.1@));
                if ts.len() == 0 {
                    UiEffect::Toast(string_from_chars(&str_chars("No issues to add sub-issue to.")))
                } else if ts.len() == 1 {
                    assert(tv[0] == (ts@[0].0, ts@[0].1@));
                    let mut t: Vec<char> = Vec::new();
                    push_str(&mut t, "Sub-issue of ");
                    let l = label_of(ts[0].0, &ts[0].1);
                    push_str(&mut t, l.as_str());
                    let title = string_from_chars(&t);
                    proof {
                        reveal_strlit("");
                    }
                    UiEffect::Input(
                        InputModal::new(title.as_str(), "Sub-issue title:", InputAction::AddSubIssue(ts[0].0)),
                    )
                } else {
                    let mut items: Vec<String> = Vec::new();
                    let mut i: usize = 0;
                    while i < ts.len()
                        invariant
                            i <= ts.len(),
                            tv == ts@.map_values(|x: (u32, String)| (x.0, x.1@)),
                            items.deep_view() == labels(tv.subrange(0, i as int)),
                        decreases ts.len() - i,
                    {
                        assert(tv[i as int] == (ts@[i as int].0, ts@[i as int].1@));
                        let ghost before = items.deep_view();
                        items.push(label_of(ts[i].0, &ts[i].1));
                        assert(labels(tv.subrange(0, i + 1)) =~= labels(tv.subrange(0, i as int)).push(
                            issue_label(tv[i as int].0, tv[i as int].1),
                        ));
                        assert(items.deep_view() =~= before.push(issue_label(tv[i as int].0, tv[i as int].1)));
                        i = i + 1;
                    }
                    assert(tv.subrange(0, i as int) =~= tv);
                    UiEffect::Select(SelectModal::new("Pick parent issue", items, SelectAction::PickParentIssue))
                }
            },
        },
        _ => UiEffect::Unchanged,
    }
}

} // verus!
