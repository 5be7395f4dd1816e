//! The text input and list selection modals: what each key does to their state, and which
//! action it answers with.
use vstd::prelude::*;
use crate::events::{Action, KeyCode, KeyPress};
use crate::text::{dec, push_chars, push_dec, slice, str_chars, string_from_chars};

verus! {

broadcast use vstd::string::group_string_axioms;

// ── Text editing model ───────────────────────────────────────────────

/// `s` with `c` inserted before position `i`.
pub open spec fn insert_at(s: Seq<char>, i: int, c: char) -> Seq<char> {
    s.subrange(0, i).push(c) + s.subrange(i, s.len() as int)
}

/// `s` without the characters from `lo` up to `hi`.
pub open spec fn cut(s: Seq<char>, lo: int, hi: int) -> Seq<char> {
    s.subrange(0, lo) + s.subrange(hi, s.len() as int)
}

/// The position reached from `pos` by stepping back over spaces.
pub open spec fn back_over_spaces(s: Seq<char>, pos: int) -> int
    decreases pos,
{
    if pos > 0 && s[pos - 1] == ' ' {
        back_over_spaces(s, pos - 1)
    } else {
        pos
    }
}

/// The position reached from `pos` by stepping back over characters other than spaces.
pub open spec fn back_over_word(s: Seq<char>, pos: int) -> int
    decreases pos,
{
    if pos > 0 && s[pos - 1] != ' ' {
        back_over_word(s, pos - 1)
    } else {
        pos
    }
}

/// Where the word before `pos` starts: the spaces just before `pos` are skipped, then the word.
pub open spec fn word_start(s: Seq<char>, pos: int) -> int {
    back_over_word(s, back_over_spaces(s, pos))
}

/// What a key does to the text and the cursor of an input modal.
pub open spec fn input_edit(s: Seq<char>, cur: int, key: KeyPress) -> (Seq<char>, int) {
    match key.code {
        KeyCode::Left => (s, if cur > 0 { cur - 1 } else { cur }),
        KeyCode::Right => (s, if cur < s.len() { cur + 1 } else { cur }),
        KeyCode::Home => (s, 0),
        KeyCode::End => (s, s.len() as int),
        KeyCode::Backspace => if cur > 0 { (cut(s, cur - 1, cur), cur - 1) } else { (s, cur) },
        KeyCode::Delete => if cur < s.len() { (cut(s, cur, cur + 1), cur) } else { (s, cur) },
        KeyCode::Char(c) => if !key.ctrl {
            (insert_at(s, cur, c), cur + 1)
        } else if c == 'w' {
            (cut(s, word_start(s, cur), cur), word_start(s, cur))
        } else if c == 'u' {
            (cut(s, 0, cur), 0)
        } else {
            (s, cur)
        },
        _ => (s, cur),
    }
}

// ── Lemmas on the model ──────────────────────────────────────────────

proof fn lemma_back_over_spaces(s: Seq<char>, pos: int)
    requires
        0 <= pos <= s.len(),
    ensures
        0 <= back_over_spaces(s, pos) <= pos,
    decreases pos,
{
    if pos > 0 && s[pos - 1] == ' ' {
        lemma_back_over_spaces(s, pos - 1);
    }
}

proof fn lemma_back_over_word(s: Seq<char>, pos: int)
    requires
        0 <= pos <= s.len(),
    ensures
        0 <= back_over_word(s, pos) <= pos,
    decreases pos,
{
    if pos > 0 && s[pos - 1] != ' ' {
        lemma_back_over_word(s, pos - 1);
    }
}

proof fn lemma_word_start(s: Seq<char>, pos: int)
    requires
        0 <= pos <= s.len(),
    ensures
        0 <= word_start(s, pos) <= pos,
{
    lemma_back_over_spaces(s, pos);
    lemma_back_over_word(s, back_over_spaces(s, pos));
}

/// Every key leaves the cursor of an input modal within its text.
pub proof fn lemma_edit_keeps_cursor(s: Seq<char>, cur: int, key: KeyPress)
    requires
        0 <= cur <= s.len(),
    ensures
        0 <= input_edit(s, cur, key).1 <= input_edit(s, cur, key).0.len(),
{
    lemma_word_start(s, cur);
}

/// Typing a character and then pressing Backspace gives back the text and the cursor.
pub proof fn lemma_type_then_erase(s: Seq<char>, cur: int, c: char, ctrl: bool)
    requires
        0 <= cur <= s.len(),
    ensures
        ({
            let (t, p) = input_edit(s, cur, KeyPress { code: KeyCode::Char(c), ctrl: false });
            input_edit(t, p, KeyPress { code: KeyCode::Backspace, ctrl })
        }) == (s, cur),
{
    let t = insert_at(s, cur, c);
    assert(cut(t, cur, cur + 1) =~= s);
}

/// Typing a character and then pressing Left and Delete gives back the text, with the cursor
/// where the character was typed.
pub proof fn lemma_type_then_delete(s: Seq<char>, cur: int, c: char)
    requires
        0 <= cur <= s.len(),
    ensures
        ({
            let (t, p) = input_edit(s, cur, KeyPress { code: KeyCode::Char(c), ctrl: false });
            let (t2, p2) = input_edit(t, p, KeyPress { code: KeyCode::Left, ctrl: false });
            input_edit(t2, p2, KeyPress { code: KeyCode::Delete, ctrl: false })
        }) == (s, cur),
{
    let t = insert_at(s, cur, c);
    assert(cut(t, cur, cur + 1) =~= s);
}

// ── Executable helpers ───────────────────────────────────────────────

/// `s` without the characters from `lo` up to `hi`.
fn cut_chars(s: &Vec<char>, lo: usize, hi: usize) -> (r: Vec<char>)
    requires
        lo <= hi <= s.len(),
    ensures
        r@ == cut(s@, lo as int, hi as int),
{
    let mut r = slice(s, 0, lo);
    let tail = slice(s, hi, s.len());
    push_chars(&mut r, &tail);
    r
}

/// `s` with `c` inserted before position `i`.
fn insert_char(s: &Vec<char>, i: usize, c: char) -> (r: Vec<char>)
    requires
        i <= s.len(),
    ensures
        r@ == insert_at(s@, i as int, c),
{
    let mut r = slice(s, 0, i);
    r.push(c);
    let tail = slice(s, i, s.len());
    push_chars(&mut r, &tail);
    r
}

fn word_start_of(s: &Vec<char>, pos: usize) -> (r: usize)
    requires
        pos <= s.len(),
    ensures
        r == word_start(s@, pos as int),
{
    let mut p = pos;
    while p > 0 && s[p - 1] == ' '
        invariant
            p <= pos <= s.len(),
            back_over_spaces(s@, p as int) == back_over_spaces(s@, pos as int),
        decreases p,
    {
        p = p - 1;
    }
    let mid = p;
    while p > 0 && s[p - 1] != ' '
        invariant
            p <= mid <= s.len(),
            mid == back_over_spaces(s@, pos as int),
            back_over_word(s@, p as int) == back_over_word(s@, mid as int),
        decreases p,
    {
        p = p - 1;
    }
    p
}

// ── Input modal ──────────────────────────────────────────────────────

/// Identifies which operation triggered this modal.
/// The caller uses this to route the submitted string correctly.
#[derive(Debug, Clone)]
pub enum InputAction {
    AddProject,
    QuickNote,
    QuickBlocker,
    QuickDecision,
    EditFocus,
    EditTags,
    EditTarget,
    Unblock,
    MoveBlocker,
    CommandMode,
    /// First step of EOD reflection: "What did you ship today?"
    EodReflectShipped,
    /// Second step of EOD reflection: "Most important thing for tomorrow?"
    EodReflectTomorrow(String),  // carries the shipped text from step 1
    /// Add a new top-level issue
    AddIssue,
    /// Add a sub-issue (carries parent issue ID)
    AddSubIssue(u32),
    /// Quick-meeting mode: capture meeting note on the meetings project
    MeetingNote,
}

/// A text input modal: a title, a prompt, the text typed so far and a cursor (a character index).
#[derive(Debug, Clone)]
pub struct InputModal {
    pub title: String,
    pub prompt: String,
    pub input: String,
    pub cursor_pos: usize,
    pub on_submit: InputAction,
}

impl InputModal {
    /// The cursor stands within the text.
    pub open spec fn wf(&self) -> bool {
        self.cursor_pos <= self.input@.len()
    }

    /// Create a new, empty input modal.
    pub fn new(title: &str, prompt: &str, on_submit: InputAction) -> (r: Self)
        ensures
            r.title@ == title@,
            r.prompt@ == prompt@,
            r.input@ == Seq::<char>::empty(),
            r.cursor_pos == 0,
            r.on_submit == on_submit,
            r.wf(),
    {
        InputModal {
            title: string_from_chars(&str_chars(title)),
            prompt: string_from_chars(&str_chars(prompt)),
            input: String::new(),
            cursor_pos: 0,
            on_submit,
        }
    }

    /// Create an input modal pre-populated with `initial` text.
    /// The cursor is placed at the end of the initial text.
    pub fn with_initial(title: &str, prompt: &str, initial: &str, on_submit: InputAction) -> (r: Self)
        ensures
            r.title@ == title@,
            r.prompt@ == prompt@,
            r.input@ == initial@,
            r.cursor_pos == initial@.len(),
            r.on_submit == on_submit,
            r.wf(),
    {
        let chars = str_chars(initial);
        let cursor_pos = chars.len();
        InputModal {
            title: string_from_chars(&str_chars(title)),
            prompt: string_from_chars(&str_chars(prompt)),
            input: string_from_chars(&chars),
            cursor_pos,
            on_submit,
        }
    }

    /// Apply a key: Enter submits the text, Escape closes the modal, and every other key edits
    /// the text and moves the cursor as `input_edit` says.
    /// Ctrl-W: deletes the spaces before the cursor and the word before them.
    fn delete_word_before_cursor(&mut self)
        requires
            old(self).wf(),
        ensures
            final(self).wf(),
            final(self).title == old(self).title,
            final(self).prompt == old(self).prompt,
            final(self).on_submit == old(self).on_submit,
            final(self).input@ == cut(
                old(self).input@,
                word_start(old(self).input@, old(self).cursor_pos as int),
                old(self).cursor_pos as int,
            ),
            final(self).cursor_pos == word_start(old(self).input@, old(self).cursor_pos as int),
    {
        let chars = str_chars(self.input.as_str());
        let cur = self.cursor_pos;
        let p = word_start_of(&chars, cur);
        proof {
            lemma_word_start(chars@, cur as int);
        }
        self.input = string_from_chars(&cut_chars(&chars, p, cur));
        self.cursor_pos = p;
        proof {
            lemma_word_start(old(self).input@, cur as int);
        }
    }

    pub fn handle_key(&mut self, key: KeyPress) -> (r: Action)
        requires
            old(self).wf(),
            old(self).input@.len() < usize::MAX,
        ensures
            final(self).wf(),
            final(self).title == old(self).title,
            final(self).prompt == old(self).prompt,
            final(self).on_submit == old(self).on_submit,
            (final(self).input@, final(self).cursor_pos as int) == input_edit(
                old(self).input@,
                old(self).cursor_pos as int,
                key,
            ),
            match key.code {
                KeyCode::Enter => r matches Action::SubmitInput(t) && t@ == old(self).input@,
                KeyCode::Esc => r is PopModal,
                _ => r is NoAction,
            },
    {
        proof {
            lemma_edit_keeps_cursor(self.input@, self.cursor_pos as int, key);
        }
        let chars = str_chars(self.input.as_str());
        let len = chars.len();
        let cur = self.cursor_pos;
        match key.code {
            KeyCode::Enter => Action::SubmitInput(self.input.clone()),
            KeyCode::Esc => Action::PopModal,
            KeyCode::Left => {
                if cur > 0 {
                    self.cursor_pos = cur - 1;
                }
                Action::NoAction
            },
            KeyCode::Right => {
                if cur < len {
                    self.cursor_pos = cur + 1;
                }
                Action::NoAction
            },
            KeyCode::Home => {
                self.cursor_pos = 0;
                Action::NoAction
            },
            KeyCode::End => {
                self.cursor_pos = len;
                Action::NoAction
            },
            KeyCode::Backspace => {
                if cur > 0 {
                    self.input = string_from_chars(&cut_chars(&chars, cur - 1, cur));
                    self.cursor_pos = cur - 1;
                }
                Action::NoAction
            },
            KeyCode::Delete => {
                if cur < len {
                    self.input = string_from_chars(&cut_chars(&chars, cur, cur + 1));
                }
                Action::NoAction
            },
            KeyCode::Char(c) => {
                if !key.ctrl {
                    self.input = string_from_chars(&insert_char(&chars, cur, c));
                    self.cursor_pos = cur + 1;
                } else if c == 'w' {
                    self.delete_word_before_cursor();
                } else if c == 'u' {
                    self.input = string_from_chars(&cut_chars(&chars, 0, cur));
                    self.cursor_pos = 0;
                }
                Action::NoAction
            },
            _ => Action::NoAction,
        }
    }
}

// ── Select modal ─────────────────────────────────────────────────────

/// Identifies which flow this modal feeds.
#[derive(Debug, Clone)]
pub enum SelectAction {
    /// User is choosing which blocker to unblock.
    ChooseBlocker,
    /// User is choosing the source blocker to move (step 1 of MoveBlocker).
    MoveBlockerSource,
    /// User is choosing the destination project (step 2 of MoveBlocker).
    /// Carries the blocker index that was selected in step 1.
    MoveBlockerDest(usize),
    /// User is picking a parent issue for a sub-issue.
    PickParentIssue,
    /// User is picking an issue to cycle status forward.
    PickIssueToCycle,
    /// User is picking an issue to cycle status backward.
    PickIssueToCycleReverse,
    /// User is picking an issue to close.
    PickIssueToClose,
    /// User is picking the issue to pin as the active one (row 0 clears the pin).
    PinIssue,
    /// User is picking a recent note to turn into an issue.
    NoteToIssue,
    /// User is picking how to stop working: a break, lunch, or the end of the day.
    StopWorkChoice,
}

/// A list selection modal: a title, the items shown and the index of the highlighted one.
#[derive(Debug, Clone)]
pub struct SelectModal {
    pub title: String,
    pub items: Vec<String>,
    pub selected: usize,
    pub on_submit: SelectAction,
}

/// Whether the key moves the selection down (`j` or the down arrow).
pub open spec fn moves_down(key: KeyPress) -> bool {
    key.code == KeyCode::Char('j') || key.code == KeyCode::Down
}

/// Whether the key moves the selection up (`k` or the up arrow).
pub open spec fn moves_up(key: KeyPress) -> bool {
    key.code == KeyCode::Char('k') || key.code == KeyCode::Up
}

/// The selection after a key, in a list of `len` items.
pub open spec fn select_step(selected: int, len: int, key: KeyPress) -> int {
    if moves_down(key) {
        if len > 0 {
            if selected + 1 < len - 1 { selected + 1 } else { len - 1 }
        } else {
            selected
        }
    } else if moves_up(key) {
        if selected > 0 { selected - 1 } else { 0 }
    } else {
        selected
    }
}

/// Once the selection is within the list, every key keeps it there.
pub proof fn lemma_select_stays_in_list(selected: int, len: int, key: KeyPress)
    requires
        0 <= selected < len,
    ensures
        0 <= select_step(selected, len, key) < len,
{
}

/// Moving down and then up comes back to the item one started from, unless it was the last.
pub proof fn lemma_down_then_up(selected: int, len: int)
    requires
        0 <= selected,
        selected + 1 < len,
    ensures
        select_step(
            select_step(selected, len, KeyPress { code: KeyCode::Down, ctrl: false }),
            len,
            KeyPress { code: KeyCode::Up, ctrl: false },
        ) == selected,
{
}

impl SelectModal {
    pub fn new(title: &str, items: Vec<String>, on_submit: SelectAction) -> (r: Self)
        ensures
            r.title@ == title@,
            r.items == items,
            r.selected == 0,
            r.on_submit == on_submit,
    {
        SelectModal { title: string_from_chars(&str_chars(title)), items, selected: 0, on_submit }
    }

    /// Apply a key: `j`/Down and `k`/Up move the selection, Enter submits the selected index as
    /// decimal text, Escape closes the modal.
    pub fn handle_key(&mut self, key: KeyPress) -> (r: Action)
        requires
            moves_down(key) && old(self).items.len() > 0 ==> old(self).selected < usize::MAX,
        ensures
            final(self).title == old(self).title,
            final(self).items == old(self).items,
            final(self).on_submit == old(self).on_submit,
            final(self).selected as int == select_step(
                old(self).selected as int,
                old(self).items.len() as int,
                key,
            ),
            if moves_down(key) || moves_up(key) {
                r is NoAction
            } else {
                match key.code {
                    KeyCode::Enter => r matches Action::SubmitInput(t) && t@ == dec(
                        old(self).selected as nat,
                    ),
                    KeyCode::Esc => r is PopModal,
                    _ => r is NoAction,
                }
            },
    {
        let is_down = match key.code {
            KeyCode::Char(c) => c == 'j',
            KeyCode::Down => true,
            _ => false,
        };
        let is_up = match key.code {
            KeyCode::Char(c) => c == 'k',
            KeyCode::Up => true,
            _ => false,
        };
        if is_down {
            let n = self.items.len();
            if n > 0 {
                let next = self.selected + 1;
                self.selected = if next < n - 1 { next } else { n - 1 };
            }
            Action::NoAction
        } else if is_up {
            if self.selected > 0 {
                self.selected = self.selected - 1;
            }
            Action::NoAction
        } else {
            match key.code {
                KeyCode::Enter => {
                    let mut digits: Vec<char> = Vec::new();
                    push_dec(&mut digits, self.selected as u64);
                    Action::SubmitInput(string_from_chars(&digits))
                },
                KeyCode::Esc => Action::PopModal,
                _ => Action::NoAction,
            }
        }
    }
}

} // verus!
