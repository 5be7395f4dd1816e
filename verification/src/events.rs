//! Screen, focus and modal identifiers of the terminal interface, the keys it reads and the
//! actions that every key press maps to.
use vstd::prelude::*;

verus! {

/// Focus state — which panel has keyboard focus.
#[derive(Debug, Clone, PartialEq)]
pub enum Focus {
    Main,
    Sidebar(usize),  // index into plugin list
    Modal,
}

/// Which screen is currently displayed.
#[derive(Debug, Clone, PartialEq)]
pub enum ScreenId {
    Dashboard,
    ProjectView(String),  // slug
    Switch(Option<String>),  // optional target slug
    Review,
    Search,
    People,
    IssueBoard,
    Weekly,
    /// A full-screen plugin, by name.
    Plugin(String),
}

/// Modal types that can be pushed onto the popup stack.
#[derive(Debug, Clone)]
pub enum ModalId {
    Help,
    AddProject,
    QuickNote,
    QuickBlocker,
    QuickDecision,
    Unblock(usize),  // blocker index
    EditFocus,
    EditTags,
    EditTarget,
    MoveBlocker(usize),  // blocker index
    BlockerAction(usize),  // blocker index
    DeleteConfirm(String),  // project slug
    BreakOptions,
    CommandMode,  // :command
    AddIssue,  // new issue input
    AddSubIssue,  // sub-issue: pick parent, then input
    SelectIssue(String),  // action label: "cycle", "close"
}

/// The key codes that the interface tells apart.
#[derive(Debug, Clone, Copy, PartialEq, Eq, Structural)]
pub enum KeyCode {
    Enter,
    Esc,
    Left,
    Right,
    Up,
    Down,
    Home,
    End,
    Backspace,
    Delete,
    Char(char),
    /// Any other key (function keys, Tab, ...).
    Other,
}

/// A key press: its code, and whether Control was held.
#[derive(Debug, Clone, Copy, PartialEq, Eq, Structural)]
pub struct KeyPress {
    pub code: KeyCode,
    pub ctrl: bool,
}

/// Actions that flow through the central update() function.
/// Every key press ultimately maps to one of these.
#[derive(Debug, Clone)]
pub enum Action {
    NoAction,
    Quit,
    // Navigation
    Down,
    Up,
    Top,  // g
    Bottom,  // G
    HalfPageDown,  // Ctrl+D
    HalfPageUp,  // Ctrl+U
    // Selection
    Select,  // Enter
    Back,  // Escape
    // Dashboard actions
    StartWork,
    SwitchContext,
    QuickNote,
    QuickBlocker,
    QuickDecision,
    Unblock,
    LogDecision,
    SearchOpen,
    MorningReview,
    PeopleView,
    AddProject,
    Help,
    StopWork,
    Export,
    // Sidebar
    ToggleSidebar,
    FocusSidebar,
    // Issue board
    OpenIssueBoard,
    // Project view actions
    EditFocus,
    CycleStatus,
    CyclePriority,
    EditTags,
    EditTarget,
    DeleteProject,
    MoveBlocker,
    // Issue actions
    AddIssue,
    AddSubIssue,
    CycleIssueStatus,
    CycleIssueStatusReverse,
    CloseIssue,
    // Open project file in $EDITOR
    OpenEditor,  // from ProjectView: open current project (o)
    OpenEditorSelected,  // from Dashboard: open cursor-selected project (O)
    // Command palette
    OpenCommandMode,  // ':' — open command input at the bottom
    // Modal results
    SubmitInput(String),
    Cancel,
    /// Save switch context to the current project log without switching.
    /// Used when Escape is pressed at SelectProject step with captured context.
    SaveContextOnly,
    /// Emitted when the context-switch wizard completes all steps.
    SwitchComplete,
    // Screen/modal stack
    PushScreen(ScreenId),
    PopScreen,
    PushModal(ModalId),
    PopModal,
    // Toast
    Toast(String),
    // Tick (1-second timer)
    Tick,
    // Raw key passthrough (for text input, plugin keys)
    RawKey(KeyPress),
}

// ── Idle reminder ────────────────────────────────────────────────────

/// Whether to remind the user that no project is active: only with no modal open, on the
/// dashboard, at least a minute after launch, with no active project, between 08:00 and
/// 18:00, and not within five minutes of the last dismissal.
pub open spec fn idle_reminder_due(
    modal_open: bool,
    screen: ScreenId,
    secs_since_start: u64,
    has_active_project: bool,
    hour: u32,
    secs_since_dismissed: Option<u64>,
) -> bool {
    &&& !modal_open
    &&& screen is Dashboard
    &&& secs_since_start >= 60
    &&& !has_active_project
    &&& 8 <= hour < 18
    &&& match secs_since_dismissed {
        Some(d) => d >= 300,
        None => true,
    }
}

/// The reminder decision, from what the interface knows: whether a modal is open, the
/// screen, whole seconds since launch, whether a project is active, the local hour, and the
/// whole seconds since the reminder was last dismissed (where it was).
pub fn should_show_idle_reminder(
    modal_open: bool,
    screen: &ScreenId,
    secs_since_start: u64,
    has_active_project: bool,
    hour: u32,
    secs_since_dismissed: Option<u64>,
) -> (r: bool)
    ensures
        r == idle_reminder_due(
            modal_open,
            *screen,
            secs_since_start,
            has_active_project,
            hour,
            secs_since_dismissed,
        ),
{
    if modal_open {
        return false;
    }
    match screen {
        ScreenId::Dashboard => {},
        _ => {
            return false;
        },
    }
    if secs_since_start < 60 {
        return false;
    }
    if has_active_project {
        return false;
    }
    if hour < 8 || hour >= 18 {
        return false;
    }
    match secs_since_dismissed {
        Some(d) => d >= 300,
        None => true,
    }
}

/// The project that the note, blocker and decision keys act on: the one on view, or on
/// the dashboard the one under the cursor.
pub open spec fn target_slug(screen: ScreenId, dashboard: Seq<Seq<char>>, selected: int) -> Option<Seq<char>> {
    match screen {
        ScreenId::ProjectView(slug) => Some(slug@),
        ScreenId::Dashboard => if 0 <= selected < dashboard.len() {
            Some(dashboard[selected])
        } else {
            None
        },
        _ => None,
    }
}

/// The slug of the project that the note, blocker and decision keys act on, given the
/// screen, the dashboard's project slugs in order and the dashboard's cursor.
pub fn targeted_project_slug(screen: &ScreenId, dashboard: &Vec<String>, selected: usize) -> (r: Option<String>)
    ensures
        match r {
            Some(s) => target_slug(*screen, dashboard.deep_view(), selected as int) == Some(s@),
            None => target_slug(*screen, dashboard.deep_view(), selected as int) is None,
        },
{
    match screen {
        ScreenId::ProjectView(slug) => Some(slug.clone()),
        ScreenId::Dashboard => {
            if selected < dashboard.len() {
                Some(dashboard[selected].clone())
            } else {
                None
            }
        },
        _ => None,
    }
}

} // verus!
