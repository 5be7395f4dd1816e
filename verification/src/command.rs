//! Command mode: reading a typed `:command` line, and deciding what it asks for.
//!
//! The application reads the line, calls `parse_command`, gathers what the decision needs
//! from its stores (`CommandContext`), and carries out the `CommandEffect` that
//! `command_effect` returns.
use vstd::prelude::*;
use crate::text::{
    find_at, find_from, is_whitespace, is_ws, lowercase_of, slice, str_chars, string_from_chars,
    strip_leading, strip_leading_from, push_str, to_lowercase, trim, trim_range,
};

verus! {

broadcast use vstd::string::group_string_axioms;

/// A command-mode line, read: the command word and the rest of the line.
#[derive(Debug, Clone)]
pub enum Command {
    /// Nothing was typed.
    Empty,
    /// `q` or `quit`.
    Quit,
    /// `done`: end the working day.
    Done,
    /// `work <slug>`.
    Work(String),
    /// `note <text>`.
    Note(String),
    /// `block <text>`.
    Block(String),
    /// `park [slug]`.
    Park(String),
    /// Any other word.
    Unknown(String),
}

pub enum CommandView {
    Empty,
    Quit,
    Done,
    Work(Seq<char>),
    Note(Seq<char>),
    Block(Seq<char>),
    Park(Seq<char>),
    Unknown(Seq<char>),
}

impl View for Command {
    type V = CommandView;

    open spec fn view(&self) -> CommandView {
        match self {
            Command::Empty => CommandView::Empty,
            Command::Quit => CommandView::Quit,
            Command::Done => CommandView::Done,
            Command::Work(s) => CommandView::Work(s@),
            Command::Note(s) => CommandView::Note(s@),
            Command::Block(s) => CommandView::Block(s@),
            Command::Park(s) => CommandView::Park(s@),
            Command::Unknown(s) => CommandView::Unknown(s@),
        }
    }
}

/// The line without its leading colons, trimmed.
pub open spec fn command_input(raw: Seq<char>) -> Seq<char> {
    trim(strip_leading(raw, ':'))
}

/// The first position in `s` at or after `i` that holds white space.
pub open spec fn first_ws_from(s: Seq<char>, i: int) -> Option<int>
    decreases s.len() - i,
{
    if i < 0 || i >= s.len() {
        None
    } else if is_ws(s[i]) {
        Some(i)
    } else {
        first_ws_from(s, i + 1)
    }
}

/// Reading the line does not fail: the white space that ends the command word, if any, is
/// one byte long (the line is cut one byte after it).
pub open spec fn command_splits(raw: Seq<char>) -> bool {
    match first_ws_from(command_input(raw), 0) {
        Some(i) => (command_input(raw)[i] as u32) < 128,
        None => true,
    }
}

/// The command word, and the rest of the line after the white space that ends it, trimmed.
pub open spec fn command_parts(raw: Seq<char>) -> (Seq<char>, Seq<char>) {
    let input = command_input(raw);
    match first_ws_from(input, 0) {
        Some(i) => (input.take(i), trim(input.skip(i + 1))),
        None => (input, Seq::empty()),
    }
}

/// What a command-mode line reads as.
pub open spec fn command_of(raw: Seq<char>) -> CommandView {
    let (cmd, rest) = command_parts(raw);
    if command_input(raw).len() == 0 {
        CommandView::Empty
    } else if cmd == "q"@ || cmd == "quit"@ {
        CommandView::Quit
    } else if cmd == "done"@ {
        CommandView::Done
    } else if cmd == "work"@ {
        CommandView::Work(rest)
    } else if cmd == "note"@ {
        CommandView::Note(rest)
    } else if cmd == "block"@ {
        CommandView::Block(rest)
    } else if cmd == "park"@ {
        CommandView::Park(rest)
    } else {
        CommandView::Unknown(cmd)
    }
}

fn eq_text(a: &Vec<char>, t: &str) -> (b: bool)
    ensures
        b == (a@ == t@),
{
    let tc = str_chars(t);
    if a.len() != tc.len() {
        return false;
    }
    let mut i: usize = 0;
    while i < a.len()
        invariant
            i <= a.len() == tc.len(),
            tc@ == t@,
            forall|k: int| 0 <= k < i ==> a@[k] == tc@[k],
        decreases a.len() - i,
    {
        if a[i] != tc[i] {
            return false;
        }
        i = i + 1;
    }
    assert(a@ =~= tc@);
    true
}

/// Reads a command-mode line: leading `:` are dropped and the line trimmed; the first word
/// is the command, and what follows the white space after it, trimmed, is its argument.
pub fn parse_command(raw: &str) -> (c: Command)
    requires
        command_splits(raw@),
    ensures
        c@ == command_of(raw@),
{
    let cs = str_chars(raw);
    let start = strip_leading_from(&cs, 0, cs.len(), ':');
    assert(cs@.subrange(0, cs@.len() as int) =~= cs@);
    let stripped = slice(&cs, start, cs.len());
    let (a, b) = trim_range(&stripped, 0, stripped.len());
    assert(stripped@.subrange(0, stripped@.len() as int) =~= stripped@);
    let input = slice(&stripped, a, b);
    let ghost inp = command_input(raw@);
    assert(input@ == inp);
    if input.len() == 0 {
        return Command::Empty;
    }
    let mut i: usize = 0;
    while i < input.len() && !is_whitespace(input[i])
        invariant
            i <= input.len(),
            input@ == inp,
            first_ws_from(inp, i as int) == first_ws_from(inp, 0),
        decreases input.len() - i,
    {
        i = i + 1;
    }
    let (cmd, rest) = if i < input.len() {
        assert(first_ws_from(inp, 0) == Some(i as int));
        let word = slice(&input, 0, i);
        let after = slice(&input, i + 1, input.len());
        assert(after@ =~= inp.skip(i + 1));
        assert(word@ =~= inp.take(i as int));
        (word, crate::text::trimmed(&after))
    } else {
        assert(first_ws_from(inp, 0) is None);
        assert(input@.subrange(0, input@.len() as int) =~= input@);
        (slice(&input, 0, input.len()), Vec::new())
    };
    assert(rest@ =~= command_parts(raw@).1);
    assert(cmd@ == command_parts(raw@).0);
    if eq_text(&cmd, "q") || eq_text(&cmd, "quit") {
        Command::Quit
    } else if eq_text(&cmd, "done") {
        Command::Done
    } else if eq_text(&cmd, "work") {
        Command::Work(string_from_chars(&rest))
    } else if eq_text(&cmd, "note") {
        Command::Note(string_from_chars(&rest))
    } else if eq_text(&cmd, "block") {
        Command::Block(string_from_chars(&rest))
    } else if eq_text(&cmd, "park") {
        Command::Park(string_from_chars(&rest))
    } else {
        Command::Unknown(string_from_chars(&cmd))
    }
}

// ── Deciding ─────────────────────────────────────────────────────────

/// What the decision on a command needs to know of the application's state.
pub struct CommandContext {
    /// The slug of the project on screen, where a project is shown.
    pub screen_project: Option<String>,
    /// Whether the dashboard is shown.
    pub on_dashboard: bool,
    /// The slug of the project selected on the dashboard, if there is one.
    pub dashboard_selected: Option<String>,
    /// The active project's slug.
    pub active: Option<String>,
    /// Whether a project has the `work` argument as its slug.
    pub work_exact: bool,
    /// The projects in listing order: slug and name.
    pub projects: Vec<(String, String)>,
}

pub struct CommandContextView {
    pub screen_project: Option<Seq<char>>,
    pub on_dashboard: bool,
    pub dashboard_selected: Option<Seq<char>>,
    pub active: Option<Seq<char>>,
    pub work_exact: bool,
    pub projects: Seq<(Seq<char>, Seq<char>)>,
}

pub open spec fn opt_view(o: Option<String>) -> Option<Seq<char>> {
    match o {
        Some(s) => Some(s@),
        None => None,
    }
}

impl View for CommandContext {
    type V = CommandContextView;

    open spec fn view(&self) -> CommandContextView {
        CommandContextView {
            screen_project: opt_view(self.screen_project),
            on_dashboard: self.on_dashboard,
            dashboard_selected: opt_view(self.dashboard_selected),
            active: opt_view(self.active),
            work_exact: self.work_exact,
            projects: self.projects@.map_values(|p: (String, String)| (p.0@, p.1@)),
        }
    }
}

/// What the application is to do for a command.
#[derive(Debug, Clone)]
pub enum CommandEffect {
    Nothing,
    Quit,
    /// Stop work for the day.
    EndDay,
    /// Start work on the project with this slug (and select it on the dashboard).
    StartWork(String),
    /// Add a note (second) to today's log of the project (first, a slug).
    AddNote(String, String),
    /// Log a blocker (second) on the project (first, a slug).
    AddBlocker(String, String),
    /// Park the project with this slug.
    Park(String),
    /// Show a message.
    Toast(String),
}

pub enum CommandEffectView {
    Nothing,
    Quit,
    EndDay,
    StartWork(Seq<char>),
    AddNote(Seq<char>, Seq<char>),
    AddBlocker(Seq<char>, Seq<char>),
    Park(Seq<char>),
    Toast(Seq<char>),
}

impl View for CommandEffect {
    type V = CommandEffectView;

    open spec fn view(&self) -> CommandEffectView {
        match self {
            CommandEffect::Nothing => CommandEffectView::Nothing,
            CommandEffect::Quit => CommandEffectView::Quit,
            CommandEffect::EndDay => CommandEffectView::EndDay,
            CommandEffect::StartWork(s) => CommandEffectView::StartWork(s@),
            CommandEffect::AddNote(a, b) => CommandEffectView::AddNote(a@, b@),
            CommandEffect::AddBlocker(a, b) => CommandEffectView::AddBlocker(a@, b@),
            CommandEffect::Park(s) => CommandEffectView::Park(s@),
            CommandEffect::Toast(m) => CommandEffectView::Toast(m@),
        }
    }
}

/// `needle` occurs in `s`.
pub open spec fn contains(s: Seq<char>, needle: Seq<char>) -> bool {
    find_from(s, 0, needle) is Some
}

/// The project matches the lower-cased `work` argument: its slug holds it, or its
/// lower-cased name does.
pub open spec fn project_matches(p: (Seq<char>, Seq<char>), lower: Seq<char>) -> bool {
    contains(p.0, lower) || contains(lowercase_of(p.1), lower)
}

/// The first of the projects from `i` on that matches.
pub open spec fn first_match(ps: Seq<(Seq<char>, Seq<char>)>, lower: Seq<char>, i: int) -> Option<int>
    decreases ps.len() - i,
{
    if i < 0 || i >= ps.len() {
        None
    } else if project_matches(ps[i], lower) {
        Some(i)
    } else {
        first_match(ps, lower, i + 1)
    }
}

pub open spec fn no_active_message() -> Seq<char> {
    "No active project. Use :work <slug> first."@
}

/// The project a note or blocker goes to: the one on screen, else the active one.
pub open spec fn note_target(ctx: CommandContextView) -> Option<Seq<char>> {
    match ctx.screen_project {
        Some(s) => Some(s),
        None => ctx.active,
    }
}

/// The project `park` with no argument parks: the one on screen, or the one selected on the
/// dashboard.
pub open spec fn park_target(ctx: CommandContextView) -> Option<Seq<char>> {
    match ctx.screen_project {
        Some(s) => Some(s),
        None => if ctx.on_dashboard {
            ctx.dashboard_selected
        } else {
            None
        },
    }
}

/// What a command asks of the application.
pub open spec fn effect_of(c: CommandView, ctx: CommandContextView) -> CommandEffectView {
    match c {
        CommandView::Empty => CommandEffectView::Nothing,
        CommandView::Quit => CommandEffectView::Quit,
        CommandView::Done => CommandEffectView::EndDay,
        CommandView::Work(rest) => if rest.len() == 0 {
            CommandEffectView::Toast("Usage: :work <slug>"@)
        } else if ctx.work_exact {
            CommandEffectView::StartWork(rest)
        } else {
            match first_match(ctx.projects, lowercase_of(rest), 0) {
                Some(i) => CommandEffectView::StartWork(ctx.projects[i].0),
                None => CommandEffectView::Toast("No project matching '"@ + rest + "'"@),
            }
        },
        CommandView::Note(rest) => if rest.len() == 0 {
            CommandEffectView::Toast("Usage: :note <text>"@)
        } else {
            match note_target(ctx) {
                Some(s) => CommandEffectView::AddNote(s, rest),
                None => CommandEffectView::Toast(no_active_message()),
            }
        },
        CommandView::Block(rest) => if rest.len() == 0 {
            CommandEffectView::Toast("Usage: :block <text>"@)
        } else {
            match note_target(ctx) {
                Some(s) => CommandEffectView::AddBlocker(s, rest),
                None => CommandEffectView::Toast(no_active_message()),
            }
        },
        CommandView::Park(rest) => {
            let target = if rest.len() == 0 {
                park_target(ctx)
            } else {
                Some(rest)
            };
            match target {
                Some(s) => CommandEffectView::Park(s),
                None => CommandEffectView::Toast(
                    "Usage: :park <slug>  (or navigate to a project first)"@,
                ),
            }
        },
        CommandView::Unknown(cmd) => CommandEffectView::Toast("Unknown command: :"@ + cmd),
    }
}

fn copy_opt(o: &Option<String>) -> (r: Option<String>)
    ensures
        opt_view(r) == opt_view(*o),
{
    match o {
        Some(s) => Some(string_from_chars(&str_chars(s.as_str()))),
        None => None,
    }
}

fn toast(m: &str) -> (e: CommandEffect)
    ensures
        e@ == CommandEffectView::Toast(m@),
{
    CommandEffect::Toast(string_from_chars(&str_chars(m)))
}

fn contains_text(s: &str, needle: &Vec<char>) -> (b: bool)
    ensures
        b == contains(s@, needle@),
{
    let cs = str_chars(s);
    find_at(&cs, 0, needle).is_some()
}

/// The index of the first project that matches `lower`.
fn find_match(ps: &Vec<(String, String)>, lower: &Vec<char>) -> (r: Option<usize>)
    ensures
        match (r, first_match(ps@.map_values(|p: (String, String)| (p.0@, p.1@)), lower@, 0)) {
            (Some(a), Some(b)) => a == b,
            (None, None) => true,
            _ => false,
        },
        r matches Some(i) ==> i < ps.len(),
{
    let ghost pv = ps@.map_values(|p: (String, String)| (p.0@, p.1@));
    let mut i: usize = 0;
    while i < ps.len()
        invariant
            i <= ps.len(),
            pv == ps@.map_values(|p: (String, String)| (p.0@, p.1@)),
            first_match(pv, lower@, i as int) == first_match(pv, lower@, 0),
        decreases ps.len() - i,
    {
        assert(pv[i as int] == (ps@[i as int].0@, ps@[i as int].1@));
        let slug_hit = contains_text(ps[i].0.as_str(), lower);
        let name_lower = to_lowercase(ps[i].1.as_str());
        let name_hit = contains_text(name_lower.as_str(), lower);
        if slug_hit || name_hit {
            return Some(i);
        }
        i = i + 1;
    }
    None
}

/// Decides what a command asks for, given what the application knows (see
/// `CommandContext`): quitting, ending the day, starting work on a project (by exact slug,
/// else the first project whose slug or lower-cased name holds the lower-cased argument),
/// noting, logging a blocker or parking; or a message where the command lacks what it needs.
pub fn command_effect(c: &Command, ctx: &CommandContext) -> (e: CommandEffect)
    ensures
        e@ == effect_of(c@, ctx@),
{
    match c {
        Command::Empty => CommandEffect::Nothing,
        Command::Quit => CommandEffect::Quit,
        Command::Done => CommandEffect::EndDay,
        Command::Work(rest) => {
            if str_chars(rest.as_str()).len() == 0 {
                proof { reveal_strlit("Usage: :work <slug>"); }
                return toast("Usage: :work <slug>");
            }
            assert(rest@.len() > 0);
            if ctx.work_exact {
                return CommandEffect::StartWork(string_from_chars(&str_chars(rest.as_str())));
            }
            let lower = to_lowercase(rest.as_str());
            let lc = str_chars(lower.as_str());
            match find_match(&ctx.projects, &lc) {
                Some(i) => {
                    assert(ctx@.projects[i as int] == (ctx.projects@[i as int].0@, ctx.projects@[i as int].1@));
                    CommandEffect::StartWork(string_from_chars(&str_chars(ctx.projects[i].0.as_str())))
                },
                None => {
                    let mut m: Vec<char> = Vec::new();
                    push_str(&mut m, "No project matching '");
                    push_str(&mut m, rest.as_str());
                    push_str(&mut m, "'");
                    CommandEffect::Toast(string_from_chars(&m))
                },
            }
        },
        Command::Note(rest) => {
            if str_chars(rest.as_str()).len() == 0 {
                return toast("Usage: :note <text>");
            }
            assert(rest@.len() > 0);
            let target = match &ctx.screen_project {
                Some(s) => Some(string_from_chars(&str_chars(s.as_str()))),
                None => copy_opt(&ctx.active),
            };
            match target {
                Some(s) => CommandEffect::AddNote(s, string_from_chars(&str_chars(rest.as_str()))),
                None => toast("No active project. Use :work <slug> first."),
            }
        },
        Command::Block(rest) => {
            if str_chars(rest.as_str()).len() == 0 {
                return toast("Usage: :block <text>");
            }
            assert(rest@.len() > 0);
            let target = match &ctx.screen_project {
                Some(s) => Some(string_from_chars(&str_chars(s.as_str()))),
                None => copy_opt(&ctx.active),
            };
            match target {
                Some(s) => CommandEffect::AddBlocker(s, string_from_chars(&str_chars(rest.as_str()))),
                None => toast("No active project. Use :work <slug> first."),
            }
        },
        Command::Park(rest) => {
            let target = if str_chars(rest.as_str()).len() == 0 {
                match &ctx.screen_project {
                    Some(s) => Some(string_from_chars(&str_chars(s.as_str()))),
                    None => if ctx.on_dashboard {
                        copy_opt(&ctx.dashboard_selected)
                    } else {
                        None
                    },
                }
            } else {
                assert(rest@.len() > 0);
                Some(string_from_chars(&str_chars(rest.as_str())))
            };
            match target {
                Some(s) => CommandEffect::Park(s),
                None => toast("Usage: :park <slug>  (or navigate to a project first)"),
            }
        },
        Command::Unknown(cmd) => {
            let mut m: Vec<char> = Vec::new();
            push_str(&mut m, "Unknown command: :");
            push_str(&mut m, cmd.as_str());
            CommandEffect::Toast(string_from_chars(&m))
        },
    }
}

// ── Laws ─────────────────────────────────────────────────────────────

/// The project's slug holds `lower`, or its lower-cased name does.
pub open spec fn slug_or_name_holds(p: (Seq<char>, Seq<char>), lower: Seq<char>) -> bool {
    contains(lowercase_of(p.1), lower) || contains(p.0, lower)
}

proof fn lemma_first_match_at(ps: Seq<(Seq<char>, Seq<char>)>, lower: Seq<char>, i: int, k: int)
    requires
        0 <= i <= k < ps.len(),
        contains(ps[k].0, lower) || contains(lowercase_of(ps[k].1), lower),
        forall|j: int|
            i <= j < k ==> !slug_or_name_holds(#[trigger] ps[j], lower),
    ensures
        first_match(ps, lower, i) == Some(k),
    decreases k - i,
{
    if i < k {
        assert(!slug_or_name_holds(ps[i], lower));
        lemma_first_match_at(ps, lower, i + 1, k);
    }
}

proof fn lemma_no_match_from(ps: Seq<(Seq<char>, Seq<char>)>, lower: Seq<char>, i: int)
    requires
        0 <= i <= ps.len(),
        forall|j: int|
            0 <= j < ps.len() ==> !slug_or_name_holds(#[trigger] ps[j], lower),
    ensures
        first_match(ps, lower, i) is None,
    decreases ps.len() - i,
{
    if i < ps.len() {
        assert(!slug_or_name_holds(ps[i], lower));
        lemma_no_match_from(ps, lower, i + 1);
    }
}

/// `:work <text>` where no project has exactly that slug starts the first project whose slug,
/// or whose lower-cased name, holds the lower-cased text.
pub proof fn lemma_work_starts_first_match(rest: Seq<char>, ctx: CommandContextView, k: int)
    requires
        rest.len() > 0,
        !ctx.work_exact,
        0 <= k < ctx.projects.len(),
        contains(ctx.projects[k].0, lowercase_of(rest)) || contains(
            lowercase_of(ctx.projects[k].1),
            lowercase_of(rest),
        ),
        forall|j: int|
            0 <= j < k ==> !slug_or_name_holds(#[trigger] ctx.projects[j], lowercase_of(rest)),
    ensures
        effect_of(CommandView::Work(rest), ctx) == CommandEffectView::StartWork(ctx.projects[k].0),
{
    lemma_first_match_at(ctx.projects, lowercase_of(rest), 0, k);
}

/// `:work <text>` reports that no project matches only where no project's slug, nor its
/// lower-cased name, holds the lower-cased text (and none has it as its slug).
pub proof fn lemma_work_reports_no_match(rest: Seq<char>, ctx: CommandContextView)
    requires
        rest.len() > 0,
        !ctx.work_exact,
        forall|j: int|
            0 <= j < ctx.projects.len() ==> !slug_or_name_holds(#[trigger] ctx.projects[j], lowercase_of(rest)),
    ensures
        effect_of(CommandView::Work(rest), ctx) == CommandEffectView::Toast(
            "No project matching '"@ + rest + "'"@,
        ),
{
    lemma_no_match_from(ctx.projects, lowercase_of(rest), 0);
}

/// A project whose lower-cased name holds the lower-cased `:work` text is never answered
/// with "No project matching": some project is started.
pub proof fn lemma_work_name_match_starts(rest: Seq<char>, ctx: CommandContextView, k: int)
    requires
        rest.len() > 0,
        0 <= k < ctx.projects.len(),
        contains(lowercase_of(ctx.projects[k].1), lowercase_of(rest)),
    ensures
        effect_of(CommandView::Work(rest), ctx) is StartWork,
    decreases k,
{
    if !ctx.work_exact {
        let lower = lowercase_of(rest);
        let ps = ctx.projects;
        if exists|j: int| 0 <= j < k && slug_or_name_holds(ps[j], lower) {
            let j = choose|j: int| 0 <= j < k && slug_or_name_holds(ps[j], lower);
            lemma_some_match_starts(rest, ctx, j);
        } else {
            lemma_work_starts_first_match(rest, ctx, k);
        }
    }
}

proof fn lemma_some_match_starts(rest: Seq<char>, ctx: CommandContextView, k: int)
    requires
        rest.len() > 0,
        !ctx.work_exact,
        0 <= k < ctx.projects.len(),
        contains(ctx.projects[k].0, lowercase_of(rest)) || contains(
            lowercase_of(ctx.projects[k].1),
            lowercase_of(rest),
        ),
    ensures
        effect_of(CommandView::Work(rest), ctx) is StartWork,
    decreases k,
{
    let lower = lowercase_of(rest);
    let ps = ctx.projects;
    if exists|j: int| 0 <= j < k && slug_or_name_holds(ps[j], lower) {
        let j = choose|j: int| 0 <= j < k && slug_or_name_holds(ps[j], lower);
        lemma_some_match_starts(rest, ctx, j);
    } else {
        lemma_work_starts_first_match(rest, ctx, k);
    }
}

proof fn lemma_first_ws_at(s: Seq<char>, i: int, k: int)
    requires
        0 <= i <= k < s.len(),
        is_ws(s[k]),
        forall|j: int| i <= j < k ==> !is_ws(#[trigger] s[j]),
    ensures
        first_ws_from(s, i) == Some(k),
    decreases k - i,
{
    if i < k {
        lemma_first_ws_at(s, i + 1, k);
    }
}

proof fn lemma_no_ws_from(s: Seq<char>, i: int)
    requires
        0 <= i <= s.len(),
        forall|j: int| 0 <= j < s.len() ==> !is_ws(#[trigger] s[j]),
    ensures
        first_ws_from(s, i) is None,
    decreases s.len() - i,
{
    if i < s.len() {
        lemma_no_ws_from(s, i + 1);
    }
}

/// The line, without its leading colons and trimmed, is a word, one white-space character
/// and the rest: the word is the command and the rest, trimmed, its argument.
pub proof fn lemma_command_word_and_rest(raw: Seq<char>, word: Seq<char>, sep: char, rest: Seq<char>)
    requires
        command_input(raw) == word + seq![sep] + rest,
        is_ws(sep),
        forall|j: int| 0 <= j < word.len() ==> !is_ws(#[trigger] word[j]),
    ensures
        command_parts(raw) == (word, trim(rest)),
{
    let input = command_input(raw);
    let k = word.len() as int;
    assert forall|j: int| 0 <= j < k implies !is_ws(#[trigger] input[j]) by {
        assert(input[j] == word[j]);
    }
    assert(input[k] == sep);
    lemma_first_ws_at(input, 0, k);
    assert(input.take(k) =~= word);
    assert(input.skip(k + 1) =~= rest);
}

/// A line that is one word (no white space once the colons are dropped and it is trimmed)
/// is that command with no argument.
pub proof fn lemma_command_single_word(raw: Seq<char>)
    requires
        forall|j: int| 0 <= j < command_input(raw).len() ==> !is_ws(#[trigger] command_input(raw)[j]),
    ensures
        command_parts(raw) == (command_input(raw), Seq::<char>::empty()),
{
    lemma_no_ws_from(command_input(raw), 0);
}

/// `:note` and `:block` with text go to the project on screen, else to the active one, and
/// are refused with a message where there is neither; without text they are refused with
/// their usage. `:park` with no argument parks the project on screen, else the one selected
/// on the dashboard when the dashboard is shown; with an argument it parks that slug.
pub proof fn lemma_note_block_park_targets(rest: Seq<char>, ctx: CommandContextView)
    ensures
        rest.len() == 0 ==> effect_of(CommandView::Note(rest), ctx) == CommandEffectView::Toast(
            "Usage: :note <text>"@,
        ) && effect_of(CommandView::Block(rest), ctx) == CommandEffectView::Toast(
            "Usage: :block <text>"@,
        ),
        rest.len() > 0 && ctx.screen_project is Some ==> effect_of(CommandView::Note(rest), ctx)
            == CommandEffectView::AddNote(ctx.screen_project->0, rest) && effect_of(
            CommandView::Block(rest),
            ctx,
        ) == CommandEffectView::AddBlocker(ctx.screen_project->0, rest),
        rest.len() > 0 && ctx.screen_project is None && ctx.active is Some ==> effect_of(
            CommandView::Note(rest),
            ctx,
        ) == CommandEffectView::AddNote(ctx.active->0, rest) && effect_of(
            CommandView::Block(rest),
            ctx,
        ) == CommandEffectView::AddBlocker(ctx.active->0, rest),
        rest.len() > 0 && ctx.screen_project is None && ctx.active is None ==> effect_of(
            CommandView::Note(rest),
            ctx,
        ) == CommandEffectView::Toast("No active project. Use :work <slug> first."@),
        rest.len() > 0 ==> effect_of(CommandView::Park(rest), ctx) == CommandEffectView::Park(rest),
        rest.len() == 0 && ctx.screen_project is Some ==> effect_of(CommandView::Park(rest), ctx)
            == CommandEffectView::Park(ctx.screen_project->0),
        rest.len() == 0 && ctx.screen_project is None && ctx.on_dashboard
            && ctx.dashboard_selected is Some ==> effect_of(CommandView::Park(rest), ctx)
            == CommandEffectView::Park(ctx.dashboard_selected->0),
        rest.len() == 0 && ctx.screen_project is None && !ctx.on_dashboard ==> effect_of(
            CommandView::Park(rest),
            ctx,
        ) == CommandEffectView::Toast("Usage: :park <slug>  (or navigate to a project first)"@),
{
}

} // verus!
