//! Context-sensitive keybinding footer bar: which key hints show for the current screen,
//! focus state, and whether a modal is open.
use vstd::prelude::*;
use crate::events::{Focus, ScreenId};

verus! {

/// The hints that the footer shows, as (key, action) pairs.
pub open spec fn hints_for(
    screen: ScreenId,
    focus: Focus,
    has_modal: bool,
    is_kanban: bool,
    plugin_hints: Option<Seq<(&'static str, &'static str)>>,
) -> Seq<(&'static str, &'static str)> {
    if has_modal {
        seq![("Enter", "submit"), ("Esc", "cancel")]
    } else if focus is Sidebar {
        seq![("Tab", "back"), ("Space", "start/pause"), ("+/-", "adjust"), ("r", "reset"), ("R", "reset all")]
    } else {
        match screen {
            ScreenId::Plugin(_) => match plugin_hints {
                Some(h) => h,
                None => seq![("Esc", "back")],
            },
            ScreenId::Dashboard => if is_kanban {
                seq![("h/l", "column"), ("j/k", "nav"), ("Enter", "open"), ("K", "list view"), ("w", "work"), ("?", "help")]
            } else {
                seq![
                    ("j/k", "nav"),
                    ("Enter", "open"),
                    ("w", "work"),
                    ("s", "switch"),
                    ("m", "meeting"),
                    ("n", "note"),
                    ("b", "block"),
                    ("/", "search"),
                    ("W", "weekly"),
                    ("?", "help"),
                ]
            },
            ScreenId::ProjectView(_) => seq![
                ("Esc", "back"),
                ("e", "edit"),
                ("i", "issue"),
                ("s", "cycle"),
                ("c", "close"),
                ("n", "note"),
                ("N", "note→issue"),
                ("b", "block"),
                ("o", "editor"),
            ],
            ScreenId::Switch(_) => seq![("Enter", "next"), ("Esc", "cancel")],
            ScreenId::Review => seq![("j/k", "nav"), ("Tab", "section"), ("Esc", "back")],
            ScreenId::Search => seq![("Enter", "open"), ("Esc", "back"), ("j/k", "results")],
            ScreenId::People => seq![("j/k", "nav"), ("Esc", "back")],
            ScreenId::IssueBoard => seq![
                ("h/l", "column"),
                ("j/k", "nav"),
                ("Enter", "advance"),
                ("S", "reverse"),
                ("c", "close"),
                ("p", "filter"),
                ("D", "done col"),
                ("Esc", "back"),
            ],
            ScreenId::Weekly => seq![("Tab", "section"), ("j/k", "nav"), ("Esc", "back")],
        }
    }
}

/// The key hints for the current context: a modal shows only submit and cancel, a focused
/// sidebar its plugin controls, and otherwise each screen its own keys (a plugin screen the
/// hints its plugin gives, or just `Esc`).
pub fn get_hints(
    screen: &ScreenId,
    focus: &Focus,
    has_modal: bool,
    is_kanban: bool,
    plugin_hints: Option<Vec<(&'static str, &'static str)>>,
) -> (r: Vec<(&'static str, &'static str)>)
    ensures
        r@ == hints_for(
            *screen,
            *focus,
            has_modal,
            is_kanban,
            match plugin_hints {
                Some(v) => Some(v@),
                None => None,
            },
        ),
{
    if has_modal {
        return vec![("Enter", "submit"), ("Esc", "cancel")];
    }
    if let Focus::Sidebar(_) = focus {
        return vec![("Tab", "back"), ("Space", "start/pause"), ("+/-", "adjust"), ("r", "reset"), ("R", "reset all")];
    }
    match screen {
        ScreenId::Plugin(_) => match plugin_hints {
            Some(h) => h,
            None => vec![("Esc", "back")],
        },
        ScreenId::Dashboard => if is_kanban {
            vec![("h/l", "column"), ("j/k", "nav"), ("Enter", "open"), ("K", "list view"), ("w", "work"), ("?", "help")]
        } else {
            vec![
                ("j/k", "nav"),
                ("Enter", "open"),
                ("w", "work"),
                ("s", "switch"),
                ("m", "meeting"),
                ("n", "note"),
                ("b", "block"),
                ("/", "search"),
                ("W", "weekly"),
                ("?", "help"),
            ]
        },
        ScreenId::ProjectView(_) => vec![
            ("Esc", "back"),
            ("e", "edit"),
            ("i", "issue"),
            ("s", "cycle"),
            ("c", "close"),
            ("n", "note"),
            ("N", "note→issue"),
            ("b", "block"),
            ("o", "editor"),
        ],
        ScreenId::Switch(_) => vec![("Enter", "next"), ("Esc", "cancel")],
        ScreenId::Review => vec![("j/k", "nav"), ("Tab", "section"), ("Esc", "back")],
        ScreenId::Search => vec![("Enter", "open"), ("Esc", "back"), ("j/k", "results")],
        ScreenId::People => vec![("j/k", "nav"), ("Esc", "back")],
        ScreenId::IssueBoard => vec![
            ("h/l", "column"),
            ("j/k", "nav"),
            ("Enter", "advance"),
            ("S", "reverse"),
            ("c", "close"),
            ("p", "filter"),
            ("D", "done col"),
            ("Esc", "back"),
        ],
        ScreenId::Weekly => vec![("Tab", "section"), ("j/k", "nav"), ("Esc", "back")],
    }
}

} // verus!
