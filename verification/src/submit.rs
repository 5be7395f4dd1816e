//! What a submitted input box does to a project: a quick note, blocker or decision, a new
//! focus, tags or target date, or a meeting note. The application finds the project, calls
//! `edit_project` with the text typed and the day, saves the project and shows the message
//! returned.
use vstd::prelude::*;
use crate::date::{chrono_parse_ymd, date_text, parse_ymd, push_date, Date};
use crate::modals::InputAction;
use crate::person::{project_list, project_list_of};
use crate::project::{Decision, DecisionView, Project, ProjectView};
use crate::project_ops::{new_blocker, noted_log};
use crate::text::{push_str, str_chars, string_from_chars, trim, trimmed};

verus! {

broadcast use vstd::string::group_string_axioms;

/// The input boxes whose text edits a project.
pub open spec fn edits_project(a: InputAction) -> bool {
    match a {
        InputAction::QuickNote | InputAction::QuickBlocker | InputAction::QuickDecision
        | InputAction::EditFocus | InputAction::EditTags | InputAction::EditTarget
        | InputAction::MeetingNote => true,
        _ => false,
    }
}

/// The project after the edit, and the message to show, if any, for the trimmed text `t`
/// typed into box `a` on day `today`.
pub open spec fn edit_step(p: ProjectView, a: InputAction, t: Seq<char>, today: Date) -> (
    ProjectView,
    Option<Seq<char>>,
) {
    match a {
        InputAction::QuickNote => if t.len() == 0 {
            (p, None)
        } else {
            (ProjectView { log: noted_log(p.log, today, t), ..p }, Some("Note added."@))
        },
        InputAction::QuickBlocker => if t.len() == 0 {
            (p, None)
        } else {
            (
                ProjectView { blockers: p.blockers.push(new_blocker(t, today)), ..p },
                Some("Blocker logged."@),
            )
        },
        InputAction::QuickDecision => if t.len() == 0 {
            (p, None)
        } else {
            (
                ProjectView {
                    decisions: p.decisions.push(
                        DecisionView { date: today, choice: t, alternatives: Seq::empty() },
                    ),
                    ..p
                },
                Some("Decision logged."@),
            )
        },
        InputAction::EditFocus => (ProjectView { current_focus: t, ..p }, Some("Focus updated."@)),
        InputAction::EditTags => (ProjectView { tags: project_list(t), ..p }, Some("Tags updated."@)),
        InputAction::EditTarget => if t.len() == 0 {
            (ProjectView { target: None, ..p }, Some("Target date cleared."@))
        } else {
            match chrono_parse_ymd(t) {
                Some(d) => (
                    ProjectView { target: Some(d), ..p },
                    Some("Target set to "@ + date_text(d) + "."@),
                ),
                None => (p, Some("Invalid date. Use YYYY-MM-DD format."@)),
            }
        },
        InputAction::MeetingNote => (
            if t.len() == 0 {
                p
            } else {
                ProjectView { log: noted_log(p.log, today, t), ..p }
            },
            Some("Meeting: "@ + t),
        ),
        _ => (p, None),
    }
}

pub open spec fn msg_view(m: Option<String>) -> Option<Seq<char>> {
    match m {
        Some(s) => Some(s@),
        None => None,
    }
}

fn msg(m: &str) -> (r: Option<String>)
    ensures
        msg_view(r) == Some(m@),
{
    Some(string_from_chars(&str_chars(m)))
}

/// Applies the text typed into an input box to the project it is about (see `edit_step`):
/// the text is trimmed; a note, blocker or decision is added on `today` where the text is not
/// empty; focus and tags are replaced; a target date is cleared, or set where the text is a
/// date; a meeting note goes into the log.
pub fn edit_project(project: &mut Project, action: &InputAction, text: &str, today: Date) -> (toast:
    Option<String>)
    requires
        edits_project(*action),
    ensures
        (final(project)@, msg_view(toast)) == edit_step(old(project)@, *action, trim(text@), today),
{
    let tv = trimmed(&str_chars(text));
    let t = string_from_chars(&tv);
    let ghost tt = trim(text@);
    assert(t@ == tt);
    let empty = tv.len() == 0;
    match action {
        InputAction::QuickNote => {
            if empty {
                return None;
            }
            project.add_note_on(today, t.as_str());
            msg("Note added.")
        },
        InputAction::QuickBlocker => {
            if empty {
                return None;
            }
            project.add_blocker_on(today, t.as_str());
            msg("Blocker logged.")
        },
        InputAction::QuickDecision => {
            if empty {
                return None;
            }
            let ghost before = project@.decisions;
            let dn = Decision { date: today, choice: t, alternatives: Vec::new() };
            assert(dn.alternatives.deep_view() =~= Seq::<Seq<char>>::empty());
            assert(dn@ == DecisionView { date: today, choice: tt, alternatives: Seq::empty() });
            project.decisions.push(dn);
            assert(project@.decisions =~= before.push(
                DecisionView { date: today, choice: tt, alternatives: Seq::empty() },
            ));
            msg("Decision logged.")
        },
        InputAction::EditFocus => {
            project.current_focus = t;
            msg("Focus updated.")
        },
        InputAction::EditTags => {
            let tags = project_list_of(&tv, 0);
            assert(tv@.skip(0) =~= tt);
            project.tags = tags;
            msg("Tags updated.")
        },
        InputAction::EditTarget => {
            if empty {
                project.target = None;
                return msg("Target date cleared.");
            }
            match parse_ymd(t.as_str()) {
                Some(d) => {
                    project.target = Some(d);
                    let mut m: Vec<char> = Vec::new();
                    push_str(&mut m, "Target set to ");
                    push_date(&mut m, d);
                    push_str(&mut m, ".");
                    Some(string_from_chars(&m))
                },
                None => msg("Invalid date. Use YYYY-MM-DD format."),
            }
        },
        InputAction::MeetingNote => {
            if !empty {
                project.add_note_on(today, t.as_str());
            }
            let mut m: Vec<char> = Vec::new();
            push_str(&mut m, "Meeting: ");
            push_str(&mut m, t.as_str());
            Some(string_from_chars(&m))
        },
        _ => None,
    }
}

// ── Routing a submitted input box ────────────────────────────────────

/// What routing a submitted input box needs to know of the application's state.
pub struct SubmitContext {
    /// The project the quick actions are aimed at (the one on screen or selected), if any.
    pub targeted: Option<String>,
    /// The project shown in the project view, if any.
    pub current: Option<String>,
    /// The slug of the project that meeting notes go to.
    pub meetings: String,
}

/// What the application is to do with a submitted input box.
#[derive(Debug, Clone)]
pub enum SubmitEffect {
    Nothing,
    /// Create a project with this name.
    CreateProject(String),
    /// Apply the text to the project with this slug, with `edit_project`.
    Edit(String),
    /// Show a message.
    Toast(String),
    /// Start resolving a blocker.
    Unblock,
    /// Start moving a blocker away from the project with this slug.
    MoveBlocker(String),
    /// Run the text as a command-mode line.
    Command(String),
    /// Ask the second end-of-day question, carrying the answer to the first.
    AskTomorrow(String),
    /// Record the end-of-day reflection (what shipped, what is next) and end the day.
    Reflect(String, String),
    /// Create an issue titled with the text on the project with this slug, under a parent
    /// where one is given.
    CreateIssue(String, String, Option<u32>),
}

pub enum SubmitEffectView {
    Nothing,
    CreateProject(Seq<char>),
    Edit(Seq<char>),
    Toast(Seq<char>),
    Unblock,
    MoveBlocker(Seq<char>),
    Command(Seq<char>),
    AskTomorrow(Seq<char>),
    Reflect(Seq<char>, Seq<char>),
    CreateIssue(Seq<char>, Seq<char>, Option<u32>),
}

impl View for SubmitEffect {
    type V = SubmitEffectView;

    open spec fn view(&self) -> SubmitEffectView {
        match self {
            SubmitEffect::Nothing => SubmitEffectView::Nothing,
            SubmitEffect::CreateProject(n) => SubmitEffectView::CreateProject(n@),
            SubmitEffect::Edit(s) => SubmitEffectView::Edit(s@),
            SubmitEffect::Toast(m) => SubmitEffectView::Toast(m@),
            SubmitEffect::Unblock => SubmitEffectView::Unblock,
            SubmitEffect::MoveBlocker(s) => SubmitEffectView::MoveBlocker(s@),
            SubmitEffect::Command(t) => SubmitEffectView::Command(t@),
            SubmitEffect::AskTomorrow(t) => SubmitEffectView::AskTomorrow(t@),
            SubmitEffect::Reflect(a, b) => SubmitEffectView::Reflect(a@, b@),
            SubmitEffect::CreateIssue(s, t, p) => SubmitEffectView::CreateIssue(s@, t@, *p),
        }
    }
}

/// What a submitted input box asks for, for the trimmed text `t`.
pub open spec fn submit_effect(a: InputAction, t: Seq<char>, targeted: Option<Seq<char>>, current: Option<
    Seq<char>,
>, meetings: Seq<char>) -> SubmitEffectView {
    match a {
        InputAction::AddProject => if t.len() == 0 {
            SubmitEffectView::Nothing
        } else {
            SubmitEffectView::CreateProject(t)
        },
        InputAction::QuickNote | InputAction::QuickBlocker | InputAction::QuickDecision => match targeted {
            Some(s) => SubmitEffectView::Edit(s),
            None => SubmitEffectView::Toast("No project selected."@),
        },
        InputAction::EditFocus | InputAction::EditTags | InputAction::EditTarget => match current {
            Some(s) => SubmitEffectView::Edit(s),
            None => SubmitEffectView::Nothing,
        },
        InputAction::Unblock => SubmitEffectView::Unblock,
        InputAction::MoveBlocker => match targeted {
            Some(s) => SubmitEffectView::MoveBlocker(s),
            None => SubmitEffectView::Nothing,
        },
        InputAction::CommandMode => SubmitEffectView::Command(t),
        InputAction::EodReflectShipped => SubmitEffectView::AskTomorrow(t),
        InputAction::EodReflectTomorrow(shipped) => SubmitEffectView::Reflect(shipped@, t),
        InputAction::AddIssue => match targeted {
            Some(s) => SubmitEffectView::CreateIssue(s, t, None),
            None => SubmitEffectView::Nothing,
        },
        InputAction::AddSubIssue(pid) => match targeted {
            Some(s) => SubmitEffectView::CreateIssue(s, t, Some(pid)),
            None => SubmitEffectView::Nothing,
        },
        InputAction::MeetingNote => SubmitEffectView::Edit(meetings),
    }
}

fn copy_text(s: &String) -> (r: String)
    ensures
        r@ == s@,
{
    string_from_chars(&str_chars(s.as_str()))
}

/// Routes a submitted input box (see `submit_effect`): the text is trimmed; a new project
/// takes a non-empty name; quick notes, blockers and decisions go to the targeted project
/// (or a message says none is selected); edits of focus, tags and target go to the project
/// on screen; meeting notes go to the meetings project; the end-of-day questions are asked
/// in turn and then recorded; issues are created on the targeted project.
pub fn submit_input(action: &InputAction, text: &str, ctx: &SubmitContext) -> (e: SubmitEffect)
    ensures
        e@ == submit_effect(
            *action,
            trim(text@),
            msg_view(ctx.targeted),
            msg_view(ctx.current),
            ctx.meetings@,
        ),
{
    let t = string_from_chars(&trimmed(&str_chars(text)));
    let targeted = match &ctx.targeted {
        Some(s) => Some(copy_text(s)),
        None => None,
    };
    let current = match &ctx.current {
        Some(s) => Some(copy_text(s)),
        None => None,
    };
    match action {
        InputAction::AddProject => {
            if str_chars(t.as_str()).len() == 0 {
                SubmitEffect::Nothing
            } else {
                SubmitEffect::CreateProject(t)
            }
        },
        InputAction::QuickNote | InputAction::QuickBlocker | InputAction::QuickDecision => {
            match targeted {
                Some(s) => SubmitEffect::Edit(s),
                None => SubmitEffect::Toast(string_from_chars(&str_chars("No project selected."))),
            }
        },
        InputAction::EditFocus | InputAction::EditTags | InputAction::EditTarget => {
            match current {
                Some(s) => SubmitEffect::Edit(s),
                None => SubmitEffect::Nothing,
            }
        },
        InputAction::Unblock => SubmitEffect::Unblock,
        InputAction::MoveBlocker => match targeted {
            Some(s) => SubmitEffect::MoveBlocker(s),
            None => SubmitEffect::Nothing,
        },
        InputAction::CommandMode => SubmitEffect::Command(t),
        InputAction::EodReflectShipped => SubmitEffect::AskTomorrow(t),
        InputAction::EodReflectTomorrow(shipped) => SubmitEffect::Reflect(copy_text(shipped), t),
        InputAction::AddIssue => match targeted {
            Some(s) => SubmitEffect::CreateIssue(s, t, None),
            None => SubmitEffect::Nothing,
        },
        InputAction::AddSubIssue(pid) => match targeted {
            Some(s) => SubmitEffect::CreateIssue(s, t, Some(*pid)),
            None => SubmitEffect::Nothing,
        },
        InputAction::MeetingNote => SubmitEffect::Edit(copy_text(&ctx.meetings)),
    }
}

} // verus!
