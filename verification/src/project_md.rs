//! Reading a project file: the YAML frontmatter and the body sections.
//!
//! ```markdown
//! ---
//! created: '2026-03-16'
//! name: HMI Framework
//! priority: high
//! status: active
//! tags: []
//! ---
//!
//! ## Current Focus
//! Focus ring on the nav bar
//!
//! ## Blockers
//! - [ ] Waiting on spec @carol (since 2026-03-14)
//! - [x] ~~Build server~~ (resolved 2026-03-15)
//!
//! ## Decisions
//! - **2026-03-10:** Use CSS outlines
//!   - Alternatives: box shadows, custom widget
//!
//! ## Log
//! ### 2026-03-16
//! - Started on the focus ring
//! ```
use vstd::prelude::*;
use crate::date::{chrono_parse_ymd, parse_ymd, today, Date};
use crate::person::{
    digits_at, digits_at_of, is_unicode_digit, is_word_char, project_list, project_list_of,
    unicode_digit, word_char,
};
use crate::project::{
    project_text, slug_of, Blocker, BlockerView, Decision, DecisionView, LogEntry, LogEntryView, Project,
    ProjectView,
};
use crate::status::{parse_priority, parse_status, Priority, Status};
use crate::text::{
    find_at, find_from, has_prefix_at, is_whitespace, is_ws, join, lemma_chars_deep_view,
    lemma_find_from_range, parse_u32, parse_u32_range, push_chars, push_joined, push_str,
    run_len, slice, split_char, split_on, starts_with_at, str_chars, string_from_chars,
    strip_leading, strip_leading_from, trim, trim_range, trim_start, trim_start_from, trimmed,
    ws_end,
};
use crate::yaml::{
    doc_lookup, eq_chars, written_doc, yaml_entry, yaml_error, yaml_lookup, yaml_parses, MetaValue,
    MetaView, YamlItem,
};
use crate::frontmatter_laws::{frontmatter_read, lemma_read_written_project, project_reads_back};

verus! {

broadcast use vstd::string::group_string_axioms;

// ── Patterns of the body ─────────────────────────────────────────────

/// `\d{4}-\d{2}-\d{2}` at `j`.
pub open spec fn date_pat_at(s: Seq<char>, j: int) -> bool {
    &&& j + 10 <= s.len()
    &&& digits_at(s, j, 4)
    &&& s[j + 4] == '-'
    &&& digits_at(s, j + 5, 2)
    &&& s[j + 7] == '-'
    &&& digits_at(s, j + 8, 2)
}

/// `\(word\s+(\d{4}-\d{2}-\d{2})\)` at `i` (with `word` holding the opening bracket):
/// where the date starts.
pub open spec fn dated_at(s: Seq<char>, i: int, word: Seq<char>) -> Option<int> {
    if !has_prefix_at(s, i, word) {
        None
    } else {
        let w = run_len(s.skip(i + word.len()), |c: char| is_ws(c)) as int;
        let j = i + word.len() + w;
        if w >= 1 && j + 11 <= s.len() && date_pat_at(s, j) && s[j + 10] == ')' {
            Some(j)
        } else {
            None
        }
    }
}

/// The leftmost such match at or after `i`: where it starts and where its date starts.
pub open spec fn find_dated(s: Seq<char>, i: int, word: Seq<char>) -> Option<(int, int)>
    decreases s.len() + 1 - i,
{
    if i < 0 || i > s.len() {
        None
    } else {
        match dated_at(s, i, word) {
            Some(j) => Some((i, j)),
            None => find_dated(s, i + 1, word),
        }
    }
}

pub open spec fn mention_char(c: char) -> bool {
    word_char(c) || c == '-'
}

/// `@([\w-]+)` at `i`: where the match ends.
pub open spec fn mention_at(s: Seq<char>, i: int) -> Option<int> {
    if 0 <= i && i + 1 < s.len() && s[i] == '@' && mention_char(s[i + 1]) {
        Some(i + 1 + run_len(s.skip(i + 1), |c: char| mention_char(c)))
    } else {
        None
    }
}

/// The leftmost mention at or after `i`: its start and end.
pub open spec fn find_mention(s: Seq<char>, i: int) -> Option<(int, int)>
    decreases s.len() + 1 - i,
{
    if i < 0 || i > s.len() {
        None
    } else {
        match mention_at(s, i) {
            Some(e) => Some((i, e)),
            None => find_mention(s, i + 1),
        }
    }
}

/// `^-\s*\[([ xX])\]\s*(.*)`: whether the box is ticked, and the text after it.
pub open spec fn checkbox(l: Seq<char>) -> Option<(bool, Seq<char>)> {
    if l.len() > 0 && l[0] == '-' {
        let i = 1 + run_len(l.skip(1), |c: char| is_ws(c)) as int;
        if i + 3 <= l.len() && l[i] == '[' && (l[i + 1] == ' ' || l[i + 1] == 'x' || l[i + 1]
            == 'X') && l[i + 2] == ']' {
            Some((l[i + 1] != ' ', trim_start(l.skip(i + 3))))
        } else {
            None
        }
    } else {
        None
    }
}

/// `^~~(.+?)~~$`: the text between the markers, where the whole text is struck through.
pub open spec fn unstrike(t: Seq<char>) -> Seq<char> {
    if t.len() >= 5 && t[0] == '~' && t[1] == '~' && t[t.len() - 2] == '~' && t[t.len() - 1]
        == '~' {
        t.subrange(2, t.len() - 2)
    } else {
        t
    }
}

/// The text before a dated note, and the note's date where it reads as one.
pub open spec fn cut_dated(t: Seq<char>, word: Seq<char>) -> (Seq<char>, Option<Date>) {
    match find_dated(t, 0, word) {
        Some((st, ds)) => (trim(t.subrange(0, st)), chrono_parse_ymd(t.subrange(ds, ds + 10))),
        None => (t, None),
    }
}

/// A blocker line (already trimmed) read into a blocker.
pub open spec fn blocker_of(l: Seq<char>) -> Option<BlockerView> {
    match checkbox(l) {
        None => None,
        Some((resolved, text0)) => {
            let text1 = if resolved {
                unstrike(cut_dated(text0, "(resolved"@).0)
            } else {
                cut_dated(text0, "(since"@).0
            };
            let since = if resolved {
                None
            } else {
                cut_dated(text0, "(since"@).1
            };
            let resolved_date = if resolved {
                cut_dated(text0, "(resolved"@).1
            } else {
                None
            };
            match find_mention(text1, 0) {
                Some((st, en)) => Some(
                    BlockerView {
                        description: trim(
                            trim(text1.subrange(0, st)) + seq![' '] + trim(
                                text1.subrange(en, text1.len() as int),
                            ),
                        ),
                        resolved,
                        since,
                        resolved_date,
                        person: Some(seq!['@'] + text1.subrange(st + 1, en)),
                    },
                ),
                None => Some(
                    BlockerView {
                        description: text1,
                        resolved,
                        since,
                        resolved_date,
                        person: None,
                    },
                ),
            }
        },
    }
}

/// The blockers that the lines of a blockers section hold.
pub open spec fn blockers_of(lines: Seq<Seq<char>>) -> Seq<BlockerView>
    decreases lines.len(),
{
    if lines.len() == 0 {
        Seq::empty()
    } else {
        match blocker_of(trim(lines.last())) {
            Some(b) => blockers_of(lines.drop_last()).push(b),
            None => blockers_of(lines.drop_last()),
        }
    }
}

// ── Executable matching ──────────────────────────────────────────────

fn ws_run_end(s: &Vec<char>, from: usize) -> (r: usize)
    requires
        from <= s.len(),
    ensures
        from <= r <= s.len(),
        r - from == run_len(s@.skip(from as int), |c: char| is_ws(c)),
{
    ws_end(s, from)
}

fn prefix_at(s: &Vec<char>, i: usize, p: &Vec<char>) -> (b: bool)
    requires
        i <= s.len(),
    ensures
        b == has_prefix_at(s@, i as int, p@),
{
    let b = starts_with_at(s, i, s.len(), p);
    assert(s@.subrange(0, s@.len() as int) =~= s@);
    b
}

fn date_pat_at_of(s: &Vec<char>, j: usize) -> (b: bool)
    ensures
        b == date_pat_at(s@, j as int),
{
    if j > s.len() || s.len() - j < 10 {
        return false;
    }
    digits_at_of(s, j, 4) && s[j + 4] == '-' && digits_at_of(s, j + 5, 2) && s[j + 7] == '-'
        && digits_at_of(s, j + 8, 2)
}

fn dated_at_of(s: &Vec<char>, i: usize, word: &Vec<char>) -> (r: Option<usize>)
    requires
        i <= s.len(),
    ensures
        match (r, dated_at(s@, i as int, word@)) {
            (Some(a), Some(b)) => a == b,
            (None, None) => true,
            _ => false,
        },
        r matches Some(j) ==> j + 11 <= s.len(),
{
    if !prefix_at(s, i, word) {
        return None;
    }
    let e = ws_run_end(s, i + word.len());
    let w = e - (i + word.len());
    if w >= 1 && s.len() - e >= 11 && date_pat_at_of(s, e) && s[e + 10] == ')' {
        Some(e)
    } else {
        None
    }
}

fn find_dated_of(s: &Vec<char>, word: &Vec<char>) -> (r: Option<(usize, usize)>)
    ensures
        match (r, find_dated(s@, 0, word@)) {
            (Some((a, b)), Some((c, d))) => a == c && b == d,
            (None, None) => true,
            _ => false,
        },
        r matches Some((a, b)) ==> a <= b && b + 11 <= s.len(),
{
    let mut i: usize = 0;
    while i < s.len()
        invariant
            i <= s.len(),
            find_dated(s@, i as int, word@) == find_dated(s@, 0, word@),
        decreases s.len() + 1 - i,
    {
        match dated_at_of(s, i, word) {
            Some(j) => {
                return Some((i, j));
            },
            None => {},
        }
        i = i + 1;
    }
    let r = dated_at_of(s, i, word);
    assert(find_dated(s@, i + 1, word@) is None);
    match r {
        Some(j) => Some((i, j)),
        None => None,
    }
}

fn mention_char_of(c: char) -> (b: bool)
    ensures
        b == mention_char(c),
{
    is_word_char(c) || c == '-'
}

fn mention_at_of(s: &Vec<char>, i: usize) -> (r: Option<usize>)
    requires
        i <= s.len(),
    ensures
        match (r, mention_at(s@, i as int)) {
            (Some(a), Some(b)) => a == b,
            (None, None) => true,
            _ => false,
        },
        r matches Some(e) ==> i < e <= s.len(),
{
    if s.len() > 1 && i < s.len() - 1 && s[i] == '@' && mention_char_of(s[i + 1]) {
        let mut k = i + 1;
        while k < s.len() && mention_char_of(s[k])
            invariant
                i + 1 <= k <= s.len(),
                (k - (i + 1)) + run_len(s@.skip(k as int), |c: char| mention_char(c)) == run_len(
                    s@.skip(i + 1),
                    |c: char| mention_char(c),
                ),
            decreases s.len() - k,
        {
            assert(s@.skip(k as int).drop_first() =~= s@.skip(k + 1));
            k = k + 1;
        }
        Some(k)
    } else {
        None
    }
}

pub(crate) fn find_mention_of(s: &Vec<char>) -> (r: Option<(usize, usize)>)
    ensures
        match (r, find_mention(s@, 0)) {
            (Some((a, b)), Some((c, d))) => a == c && b == d,
            (None, None) => true,
            _ => false,
        },
        r matches Some((a, b)) ==> a < b <= s.len(),
{
    let mut i: usize = 0;
    while i < s.len()
        invariant
            i <= s.len(),
            find_mention(s@, i as int) == find_mention(s@, 0),
        decreases s.len() + 1 - i,
    {
        match mention_at_of(s, i) {
            Some(e) => {
                return Some((i, e));
            },
            None => {},
        }
        i = i + 1;
    }
    assert(find_mention(s@, i + 1) is None);
    None
}

/// The mentions at or after `i`: every `@([\w-]+)` match, leftmost first, each search
/// starting where the last match ended.
pub open spec fn mentions_from(s: Seq<char>, i: int) -> Seq<Seq<char>>
    decreases s.len() + 1 - i,
{
    match find_mention(s, i) {
        Some((a, e)) => if i < e <= s.len() {
            seq![s.subrange(a, e)] + mentions_from(s, e)
        } else {
            Seq::empty()
        },
        None => Seq::empty(),
    }
}

fn find_mention_from(s: &Vec<char>, from: usize) -> (r: Option<(usize, usize)>)
    requires
        from <= s.len(),
    ensures
        match (r, find_mention(s@, from as int)) {
            (Some((a, b)), Some((c, d))) => a == c && b == d,
            (None, None) => true,
            _ => false,
        },
        r matches Some((a, b)) ==> from <= a < b <= s.len(),
{
    let mut i: usize = from;
    while i < s.len()
        invariant
            from <= i <= s.len(),
            find_mention(s@, i as int) == find_mention(s@, from as int),
        decreases s.len() + 1 - i,
    {
        match mention_at_of(s, i) {
            Some(e) => {
                return Some((i, e));
            },
            None => {},
        }
        i = i + 1;
    }
    assert(find_mention(s@, i + 1) is None);
    None
}

/// Extract all @mentions from a string: each `@handle`, in order.
pub fn extract_mentions(text: &str) -> (r: Vec<String>)
    ensures
        r.deep_view() == mentions_from(text@, 0),
{
    let s = str_chars(text);
    let mut out: Vec<String> = Vec::new();
    let mut pos: usize = 0;
    assert(out.deep_view() + mentions_from(s@, 0) =~= mentions_from(s@, 0));
    loop
        invariant
            pos <= s.len(),
            s@ == text@,
            mentions_from(s@, 0) == out.deep_view() + mentions_from(s@, pos as int),
        decreases s.len() - pos,
    {
        match find_mention_from(&s, pos) {
            Some((a, e)) => {
                let ghost before = out.deep_view();
                out.push(string_from_chars(&slice(&s, a, e)));
                assert(out.deep_view() =~= before.push(s@.subrange(a as int, e as int)));
                assert(mentions_from(s@, pos as int) == seq![s@.subrange(a as int, e as int)] + mentions_from(
                    s@,
                    e as int,
                ));
                assert(before + mentions_from(s@, pos as int) =~= out.deep_view() + mentions_from(s@, e as int));
                pos = e;
            },
            None => {
                assert(out.deep_view() + mentions_from(s@, pos as int) =~= out.deep_view());
                return out;
            },
        }
    }
}

fn checkbox_of(l: &Vec<char>) -> (r: Option<(bool, usize)>)
    ensures
        match (r, checkbox(l@)) {
            (Some((a, k)), Some((b, t))) => a == b && k <= l.len() && l@.skip(k as int) == t,
            (None, None) => true,
            _ => false,
        },
{
    if l.len() == 0 || l[0] != '-' {
        return None;
    }
    let i = ws_run_end(l, 1);
    if l.len() - i >= 3 && l[i] == '[' && (l[i + 1] == ' ' || l[i + 1] == 'x' || l[i + 1] == 'X')
        && l[i + 2] == ']' {
        let k = trim_start_from(l, i + 3, l.len());
        assert(l@.subrange((i + 3) as int, l@.len() as int) =~= l@.skip(i + 3));
        assert(l@.subrange(k as int, l@.len() as int) =~= l@.skip(k as int));
        Some((l[i + 1] != ' ', k))
    } else {
        None
    }
}

fn unstrike_of(t: Vec<char>) -> (r: Vec<char>)
    ensures
        r@ == unstrike(t@),
{
    let n = t.len();
    if n >= 5 && t[0] == '~' && t[1] == '~' && t[n - 2] == '~' && t[n - 1] == '~' {
        slice(&t, 2, n - 2)
    } else {
        t
    }
}

fn date_of(s: &Vec<char>, lo: usize) -> (r: Option<Date>)
    requires
        lo + 10 <= s.len(),
    ensures
        r == chrono_parse_ymd(s@.subrange(lo as int, lo + 10)),
{
    let d = slice(s, lo, lo + 10);
    let ds = string_from_chars(&d);
    parse_ymd(ds.as_str())
}

fn cut_dated_of(t: &Vec<char>, word: &str) -> (r: (Vec<char>, Option<Date>))
    ensures
        (r.0@, r.1) == cut_dated(t@, word@),
{
    let w = str_chars(word);
    match find_dated_of(t, &w) {
        Some((st, ds)) => {
            let (a, b) = trim_range(t, 0, st);
            let before = slice(t, a, b);
            (before, date_of(t, ds))
        },
        None => {
            let c = slice(t, 0, t.len());
            assert(t@.subrange(0, t@.len() as int) =~= t@);
            (c, None)
        },
    }
}

fn blocker_of_line(l: &Vec<char>) -> (r: Option<Blocker>)
    ensures
        match (r, blocker_of(l@)) {
            (Some(a), Some(b)) => a@ == b,
            (None, None) => true,
            _ => false,
        },
{
    let (resolved, k) = match checkbox_of(l) {
        Some(x) => x,
        None => {
            return None;
        },
    };
    let text0 = slice(l, k, l.len());
    assert(text0@ =~= l@.skip(k as int));
    let mut since: Option<Date> = None;
    let mut resolved_date: Option<Date> = None;
    let text1 = if resolved {
        let (t, rd) = cut_dated_of(&text0, "(resolved");
        resolved_date = rd;
        unstrike_of(t)
    } else {
        let (t, sd) = cut_dated_of(&text0, "(since");
        since = sd;
        t
    };
    match find_mention_of(&text1) {
        Some((st, en)) => {
            let (a1, b1) = trim_range(&text1, 0, st);
            let (a2, b2) = trim_range(&text1, en, text1.len());
            let mut joined: Vec<char> = slice(&text1, a1, b1);
            joined.push(' ');
            let after = slice(&text1, a2, b2);
            push_chars(&mut joined, &after);
            let desc = trimmed(&joined);
            let mut who: Vec<char> = Vec::new();
            who.push('@');
            let nm = slice(&text1, st + 1, en);
            push_chars(&mut who, &nm);
            let b = Blocker {
                description: string_from_chars(&desc),
                resolved,
                since,
                resolved_date,
                person: Some(string_from_chars(&who)),
            };
            assert(joined@ =~= trim(text1@.subrange(0, st as int)) + seq![' '] + trim(
                text1@.subrange(en as int, text1@.len() as int),
            ));
            Some(b)
        },
        None => Some(
            Blocker {
                description: string_from_chars(&text1),
                resolved,
                since,
                resolved_date,
                person: None,
            },
        ),
    }
}


// ── Decisions and log ────────────────────────────────────────────────

/// `^-\s*\*\*(\d{4}-\d{2}-\d{2}):\*\*\s*(.*)`: the date text and the (trimmed) choice.
pub open spec fn decision_head(l: Seq<char>) -> Option<(Seq<char>, Seq<char>)> {
    if l.len() > 0 && l[0] == '-' {
        let i = 1 + run_len(l.skip(1), |c: char| is_ws(c)) as int;
        if has_prefix_at(l, i, "**"@) && date_pat_at(l, i + 2) && has_prefix_at(
            l,
            i + 12,
            ":**"@,
        ) {
            Some((l.subrange(i + 2, i + 12), trim(l.skip(i + 15))))
        } else {
            None
        }
    } else {
        None
    }
}

/// `^-\s*Alternatives:\s*(.*)`: what follows the label.
pub open spec fn alt_rest(l: Seq<char>) -> Option<Seq<char>> {
    if l.len() > 0 && l[0] == '-' {
        let i = 1 + run_len(l.skip(1), |c: char| is_ws(c)) as int;
        if has_prefix_at(l, i, "Alternatives:"@) {
            Some(l.skip(i + 13))
        } else {
            None
        }
    } else {
        None
    }
}

/// The decisions that the lines of a decisions section hold, from line `i` on; `None`
/// where a decision's date is not a calendar date (reading such a file panics).
pub open spec fn decisions_from(lines: Seq<Seq<char>>, i: int) -> Option<Seq<DecisionView>>
    decreases lines.len() - i,
{
    if i < 0 || i >= lines.len() {
        Some(Seq::empty())
    } else {
        match decision_head(trim(lines[i])) {
            None => decisions_from(lines, i + 1),
            Some((dt, choice)) => match chrono_parse_ymd(dt) {
                None => None,
                Some(d) => {
                    let alt = if i + 1 < lines.len() {
                        alt_rest(trim(lines[i + 1]))
                    } else {
                        None
                    };
                    let next = if alt is Some {
                        i + 2
                    } else {
                        i + 1
                    };
                    let dec = DecisionView {
                        date: d,
                        choice,
                        alternatives: match alt {
                            Some(r) => project_list(r),
                            None => Seq::empty(),
                        },
                    };
                    match decisions_from(lines, next) {
                        Some(rest) => Some(seq![dec] + rest),
                        None => None,
                    }
                },
            },
        }
    }
}

/// `^###\s+(\d{4}-\d{2}-\d{2})`: the date text of a log day heading.
pub open spec fn log_header(l: Seq<char>) -> Option<Seq<char>> {
    let w = run_len(l.skip(3), |c: char| is_ws(c)) as int;
    if has_prefix_at(l, 0, "###"@) && w >= 1 && date_pat_at(l, 3 + w) {
        Some(l.subrange(3 + w, 13 + w))
    } else {
        None
    }
}

/// The finished log days and the day still open after reading `lines`; `None` where a
/// day heading's date is not a calendar date (reading such a file panics).
pub open spec fn log_fold(lines: Seq<Seq<char>>) -> Option<(Seq<LogEntryView>, Option<LogEntryView>)>
    decreases lines.len(),
{
    if lines.len() == 0 {
        Some((Seq::empty(), None))
    } else {
        match log_fold(lines.drop_last()) {
            None => None,
            Some((done, cur)) => {
                let l = lines.last();
                match log_header(l) {
                    Some(dt) => match chrono_parse_ymd(dt) {
                        None => None,
                        Some(d) => Some(
                            (
                                match cur {
                                    Some(e) => done.push(e),
                                    None => done,
                                },
                                Some(LogEntryView { date: d, lines: Seq::empty() }),
                            ),
                        ),
                    },
                    None => match cur {
                        Some(e) => if has_prefix_at(trim(l), 0, "- "@) {
                            Some(
                                (
                                    done,
                                    Some(
                                        LogEntryView {
                                            date: e.date,
                                            lines: e.lines.push(trim(l).skip(2)),
                                        },
                                    ),
                                ),
                            )
                        } else {
                            Some((done, cur))
                        },
                        None => Some((done, None)),
                    },
                }
            },
        }
    }
}

pub open spec fn log_of(lines: Seq<Seq<char>>) -> Option<Seq<LogEntryView>> {
    match log_fold(lines) {
        None => None,
        Some((done, cur)) => Some(
            match cur {
                Some(e) => done.push(e),
                None => done,
            },
        ),
    }
}

fn has_prefix_lit(s: &Vec<char>, i: usize, lit: &str) -> (b: bool)
    requires
        i <= s.len(),
    ensures
        b == has_prefix_at(s@, i as int, lit@),
{
    let p = str_chars(lit);
    prefix_at(s, i, &p)
}

fn decision_head_of(l: &Vec<char>) -> (r: Option<(usize, Vec<char>)>)
    ensures
        match (r, decision_head(l@)) {
            (Some((ds, ch)), Some((dt, c))) => ds + 10 <= l.len() && l@.subrange(
                ds as int,
                ds + 10,
            ) == dt && ch@ == c,
            (None, None) => true,
            _ => false,
        },
{
    proof {
        reveal_strlit("**");
        reveal_strlit(":**");
    }
    if l.len() == 0 || l[0] != '-' {
        return None;
    }
    let i = ws_run_end(l, 1);
    if !has_prefix_lit(l, i, "**") {
        return None;
    }
    if !date_pat_at_of(l, i + 2) {
        return None;
    }
    if !has_prefix_lit(l, i + 12, ":**") {
        return None;
    }
    let (a, b) = trim_range(l, i + 15, l.len());
    assert(l@.subrange((i + 15) as int, l@.len() as int) =~= l@.skip(i + 15));
    Some((i + 2, slice(l, a, b)))
}

fn alt_rest_of(l: &Vec<char>) -> (r: Option<usize>)
    ensures
        match (r, alt_rest(l@)) {
            (Some(k), Some(t)) => k <= l.len() && l@.skip(k as int) == t,
            (None, None) => true,
            _ => false,
        },
{
    proof {
        reveal_strlit("Alternatives:");
    }
    if l.len() == 0 || l[0] != '-' {
        return None;
    }
    let i = ws_run_end(l, 1);
    if has_prefix_lit(l, i, "Alternatives:") {
        Some(i + 13)
    } else {
        None
    }
}

pub open spec fn decisions_view(v: Seq<Decision>) -> Seq<DecisionView> {
    v.map_values(|d: Decision| d@)
}

fn decisions_of(lines: &Vec<Vec<char>>) -> (r: Option<Vec<Decision>>)
    ensures
        match (r, decisions_from(lines.deep_view(), 0)) {
            (Some(v), Some(ds)) => decisions_view(v@) == ds,
            (None, None) => true,
            _ => false,
        },
{
    let ghost ls = lines.deep_view();
    let mut out: Vec<Decision> = Vec::new();
    let mut i: usize = 0;
    while i < lines.len()
        invariant
            i <= lines.len() + 1,
            ls == lines.deep_view(),
            decisions_from(ls, 0) == match decisions_from(ls, i as int) {
                Some(rest) => Some(decisions_view(out@) + rest),
                None => None,
            },
        decreases lines.len() + 1 - i,
    {
        proof {
            lemma_chars_deep_view(&lines[i as int]);
        }
        let t = trimmed(&lines[i]);
        match decision_head_of(&t) {
            None => {
                i = i + 1;
            },
            Some((ds, choice)) => {
                let d = match date_of(&t, ds) {
                    Some(d) => d,
                    None => {
                        return None;
                    },
                };
                let mut alternatives: Vec<String> = Vec::new();
                assert(alternatives.deep_view() =~= Seq::<Seq<char>>::empty());
                let mut next = i + 1;
                if i + 1 < lines.len() {
                    proof {
                        lemma_chars_deep_view(&lines[i + 1]);
                    }
                    let t2 = trimmed(&lines[i + 1]);
                    match alt_rest_of(&t2) {
                        Some(k) => {
                            alternatives = project_list_of(&t2, k);
                            next = i + 2;
                        },
                        None => {},
                    }
                }
                let dec = Decision { date: d, choice: string_from_chars(&choice), alternatives };
                let ghost before = decisions_view(out@);
                assert(decisions_from(ls, i as int) == match decisions_from(ls, next as int) {
                    Some(rest) => Some(seq![dec@] + rest),
                    None => None,
                });
                out.push(dec);
                assert(decisions_view(out@) =~= before + seq![dec@]);
                proof {
                    match decisions_from(ls, next as int) {
                        Some(rest) => {
                            assert(decisions_view(out@) + rest =~= before + (seq![dec@] + rest));
                        },
                        None => {},
                    }
                }
                i = next;
            },
        }
    }
    assert(decisions_from(ls, i as int) == Some(Seq::<DecisionView>::empty()));
    assert(decisions_view(out@) + Seq::<DecisionView>::empty() =~= decisions_view(out@));
    Some(out)
}

pub open spec fn log_view(v: Seq<LogEntry>) -> Seq<LogEntryView> {
    v.map_values(|e: LogEntry| e@)
}

fn log_header_of(l: &Vec<char>) -> (r: Option<usize>)
    ensures
        match (r, log_header(l@)) {
            (Some(ds), Some(dt)) => ds + 10 <= l.len() && l@.subrange(ds as int, ds + 10) == dt,
            (None, None) => true,
            _ => false,
        },
{
    proof {
        reveal_strlit("###");
    }
    if l.len() < 3 || !has_prefix_lit(l, 0, "###") {
        if l.len() < 3 {
            assert(!has_prefix_at(l@, 0, "###"@));
        }
        return None;
    }
    let e = ws_run_end(l, 3);
    if e >= 4 && date_pat_at_of(l, e) {
        Some(e)
    } else {
        None
    }
}

fn log_of_lines(lines: &Vec<Vec<char>>) -> (r: Option<Vec<LogEntry>>)
    ensures
        match (r, log_of(lines.deep_view())) {
            (Some(v), Some(es)) => log_view(v@) == es,
            (None, None) => true,
            _ => false,
        },
{
    proof {
        reveal_strlit("- ");
    }
    let ghost ls = lines.deep_view();
    let mut done: Vec<LogEntry> = Vec::new();
    let mut cur: Option<LogEntry> = None;
    let mut i: usize = 0;
    while i < lines.len()
        invariant
            i <= lines.len(),
            ls == lines.deep_view(),
            log_fold(ls.subrange(0, i as int)) == Some(
                (
                    log_view(done@),
                    match cur {
                        Some(e) => Some(e@),
                        None => None,
                    },
                ),
            ),
        decreases lines.len() - i,
    {
        assert(ls.subrange(0, i + 1).drop_last() =~= ls.subrange(0, i as int));
        proof {
            lemma_chars_deep_view(&lines[i as int]);
        }
        let l = &lines[i];
        match log_header_of(l) {
            Some(ds) => {
                let d = match date_of(l, ds) {
                    Some(d) => d,
                    None => {
                        assert(log_fold(ls.subrange(0, i + 1)) is None);
                        let ghost k = i + 1;
                        assert forall|j: int| k <= j <= ls.len() implies #[trigger] log_fold(
                            ls.subrange(0, j),
                        ) is None by {
                            lemma_log_fold_none(ls, k as int, j);
                        }
                        assert(ls.subrange(0, ls.len() as int) =~= ls);
                        return None;
                    },
                };
                let ghost before = log_view(done@);
                match cur {
                    Some(e) => {
                        let ghost ev = e@;
                        done.push(e);
                        assert(log_view(done@) =~= before.push(ev));
                    },
                    None => {},
                }
                cur = Some(LogEntry { date: d, lines: Vec::new() });
                assert(cur.unwrap()@.lines =~= Seq::<Seq<char>>::empty());
            },
            None => {
                match cur {
                    Some(mut e) => {
                        let t = trimmed(l);
                        proof {
                            reveal_strlit("- ");
                        }
                        if has_prefix_lit(&t, 0, "- ") {
                            let rest = slice(&t, 2, t.len());
                            let ghost before = e.lines.deep_view();
                            e.lines.push(string_from_chars(&rest));
                            assert(e.lines.deep_view() =~= before.push(rest@));
                            assert(rest@ =~= t@.skip(2));
                        }
                        cur = Some(e);
                    },
                    None => {},
                }
            },
        }
        i = i + 1;
    }
    assert(ls.subrange(0, i as int) =~= ls);
    match cur {
        Some(e) => {
            let ghost before = log_view(done@);
            let ghost ev = e@;
            done.push(e);
            assert(log_view(done@) =~= before.push(ev));
        },
        None => {},
    }
    Some(done)
}

proof fn lemma_log_fold_none(ls: Seq<Seq<char>>, k: int, j: int)
    requires
        0 <= k <= j <= ls.len(),
        log_fold(ls.subrange(0, k)) is None,
    ensures
        log_fold(ls.subrange(0, j)) is None,
    decreases j - k,
{
    if j > k {
        lemma_log_fold_none(ls, k, j - 1);
        assert(ls.subrange(0, j).drop_last() =~= ls.subrange(0, j - 1));
    }
}


// ── Sections ─────────────────────────────────────────────────────────

/// What the body sections of a project file give.
pub struct BodyView {
    pub focus: Seq<char>,
    pub blockers: Seq<BlockerView>,
    pub decisions: Seq<DecisionView>,
    pub log: Seq<LogEntryView>,
}

pub open spec fn empty_body() -> BodyView {
    BodyView {
        focus: Seq::empty(),
        blockers: Seq::empty(),
        decisions: Seq::empty(),
        log: Seq::empty(),
    }
}

/// One section applied to what the sections before it gave: the focus is replaced, the
/// lists grow; `None` where reading the section panics.
pub open spec fn apply_section(b: BodyView, name: Seq<char>, lines: Seq<Seq<char>>) -> Option<
    BodyView,
> {
    if name == "Current Focus"@ {
        Some(
            BodyView {
                focus: trim(join(lines, "\n"@)),
                blockers: b.blockers,
                decisions: b.decisions,
                log: b.log,
            },
        )
    } else if name == "Blockers"@ {
        Some(
            BodyView {
                focus: b.focus,
                blockers: b.blockers + blockers_of(lines),
                decisions: b.decisions,
                log: b.log,
            },
        )
    } else if name == "Decisions"@ {
        match decisions_from(lines, 0) {
            Some(ds) => Some(
                BodyView {
                    focus: b.focus,
                    blockers: b.blockers,
                    decisions: b.decisions + ds,
                    log: b.log,
                },
            ),
            None => None,
        }
    } else if name == "Log"@ {
        match log_of(lines) {
            Some(es) => Some(
                BodyView { focus: b.focus, blockers: b.blockers, decisions: b.decisions, log: b.log + es },
            ),
            None => None,
        }
    } else {
        Some(b)
    }
}

/// `## name`: the section's (trimmed) name.
pub open spec fn section_name(l: Seq<char>) -> Option<Seq<char>> {
    if has_prefix_at(l, 0, "## "@) {
        Some(trim(l.skip(3)))
    } else {
        None
    }
}

/// The sections of the body: each heading's name with the lines up to the next heading.
/// Lines before the first heading belong to none.
pub open spec fn sections_of(lines: Seq<Seq<char>>) -> Seq<(Seq<char>, Seq<Seq<char>>)>
    decreases lines.len(),
{
    if lines.len() == 0 {
        Seq::empty()
    } else {
        let prev = sections_of(lines.drop_last());
        match section_name(lines.last()) {
            Some(n) => prev.push((n, Seq::empty())),
            None => if prev.len() == 0 {
                prev
            } else {
                prev.drop_last().push((prev.last().0, prev.last().1.push(lines.last())))
            },
        }
    }
}

pub open spec fn apply_sections(b: BodyView, secs: Seq<(Seq<char>, Seq<Seq<char>>)>) -> Option<
    BodyView,
>
    decreases secs.len(),
{
    if secs.len() == 0 {
        Some(b)
    } else {
        match apply_sections(b, secs.drop_last()) {
            None => None,
            Some(c) => apply_section(c, secs.last().0, secs.last().1),
        }
    }
}

/// What the body of a project file gives; `None` where reading it panics.
pub open spec fn project_body(body: Seq<char>) -> Option<BodyView> {
    apply_sections(empty_body(), sections_of(split_on(body, '\n')))
}

struct Body {
    focus: String,
    blockers: Vec<Blocker>,
    decisions: Vec<Decision>,
    log: Vec<LogEntry>,
}

pub open spec fn blockers_view(v: Seq<Blocker>) -> Seq<BlockerView> {
    v.map_values(|b: Blocker| b@)
}

impl View for Body {
    type V = BodyView;

    closed spec fn view(&self) -> BodyView {
        BodyView {
            focus: self.focus@,
            blockers: blockers_view(self.blockers@),
            decisions: decisions_view(self.decisions@),
            log: log_view(self.log@),
        }
    }
}

fn lit_eq(s: &Vec<char>, lit: &str) -> (b: bool)
    ensures
        b == (s@ == lit@),
{
    eq_chars(s, &str_chars(lit))
}

fn blockers_of_lines(lines: &Vec<Vec<char>>, out: &mut Vec<Blocker>)
    ensures
        blockers_view(final(out)@) == blockers_view(old(out)@) + blockers_of(lines.deep_view()),
{
    let ghost ls = lines.deep_view();
    let ghost start = blockers_view(out@);
    let mut i: usize = 0;
    while i < lines.len()
        invariant
            i <= lines.len(),
            ls == lines.deep_view(),
            blockers_view(out@) == start + blockers_of(ls.subrange(0, i as int)),
        decreases lines.len() - i,
    {
        assert(ls.subrange(0, i + 1).drop_last() =~= ls.subrange(0, i as int));
        proof {
            lemma_chars_deep_view(&lines[i as int]);
        }
        let t = trimmed(&lines[i]);
        let ghost before = blockers_view(out@);
        match blocker_of_line(&t) {
            Some(b) => {
                let ghost bv = b@;
                out.push(b);
                assert(blockers_view(out@) =~= before.push(bv));
            },
            None => {},
        }
        i = i + 1;
        assert(blockers_view(out@) =~= start + blockers_of(ls.subrange(0, i as int)));
    }
    assert(ls.subrange(0, i as int) =~= ls);
}

impl Body {
    fn apply(self, name: &Vec<char>, lines: &Vec<Vec<char>>) -> (r: Option<Body>)
        ensures
            match (r, apply_section(self@, name@, lines.deep_view())) {
                (Some(a), Some(b)) => a@ == b,
                (None, None) => true,
                _ => false,
            },
    {
        let mut b = self;
        let ghost old_v = b@;
        if lit_eq(name, "Current Focus") {
            let mut all: Vec<char> = Vec::new();
            push_joined(&mut all, lines, &str_chars("\n"));
            assert(all@ =~= join(lines.deep_view(), "\n"@));
            let t = trimmed(&all);
            b.focus = string_from_chars(&t);
            Some(b)
        } else if lit_eq(name, "Blockers") {
            blockers_of_lines(lines, &mut b.blockers);
            Some(b)
        } else if lit_eq(name, "Decisions") {
            match decisions_of(lines) {
                Some(mut ds) => {
                    let ghost dv = decisions_view(ds@);
                    b.decisions.append(&mut ds);
                    assert(decisions_view(b.decisions@) =~= old_v.decisions + dv);
                    Some(b)
                },
                None => None,
            }
        } else if lit_eq(name, "Log") {
            match log_of_lines(lines) {
                Some(mut es) => {
                    let ghost ev = log_view(es@);
                    b.log.append(&mut es);
                    assert(log_view(b.log@) =~= old_v.log + ev);
                    Some(b)
                },
                None => None,
            }
        } else {
            Some(b)
        }
    }
}

fn section_name_of(l: &Vec<char>) -> (r: Option<Vec<char>>)
    ensures
        match (r, section_name(l@)) {
            (Some(a), Some(b)) => a@ == b,
            (None, None) => true,
            _ => false,
        },
{
    proof {
        reveal_strlit("## ");
    }
    if has_prefix_lit(l, 0, "## ") {
        let (a, b) = trim_range(l, 3, l.len());
        assert(l@.subrange(3, l@.len() as int) =~= l@.skip(3));
        Some(slice(l, a, b))
    } else {
        None
    }
}

proof fn lemma_apply_sections_none(b: BodyView, secs: Seq<(Seq<char>, Seq<Seq<char>>)>, k: int)
    requires
        0 <= k <= secs.len(),
        apply_sections(b, secs.subrange(0, k)) is None,
    ensures
        apply_sections(b, secs) is None,
    decreases secs.len() - k,
{
    if k < secs.len() {
        assert(secs.subrange(0, k + 1).drop_last() =~= secs.subrange(0, k));
        lemma_apply_sections_none(b, secs, k + 1);
    } else {
        assert(secs.subrange(0, k) =~= secs);
    }
}

fn body_of(text: &Vec<char>) -> (r: Option<Body>)
    ensures
        match (r, project_body(text@)) {
            (Some(a), Some(b)) => a@ == b,
            (None, None) => true,
            _ => false,
        },
{
    let lines = split_char(text, '\n');
    let ghost ls = lines.deep_view();
    let mut acc = Body {
        focus: string_from_chars(&Vec::new()),
        blockers: Vec::new(),
        decisions: Vec::new(),
        log: Vec::new(),
    };
    assert(acc@ == empty_body()) by {
        assert(blockers_view(acc.blockers@) =~= Seq::<BlockerView>::empty());
        assert(decisions_view(acc.decisions@) =~= Seq::<DecisionView>::empty());
        assert(log_view(acc.log@) =~= Seq::<LogEntryView>::empty());
    }
    let mut ok = true;
    let mut cur: Option<Vec<char>> = None;
    let mut sec: Vec<Vec<char>> = Vec::new();
    let mut i: usize = 0;
    while i < lines.len()
        invariant
            i <= lines.len(),
            ls == lines.deep_view(),
            ls == split_on(text@, '\n'),
            match cur {
                None => sections_of(ls.subrange(0, i as int)).len() == 0 && ok && acc@
                    == empty_body(),
                Some(name) => {
                    let secs = sections_of(ls.subrange(0, i as int));
                    &&& secs.len() > 0
                    &&& secs.last() == (name@, sec.deep_view())
                    &&& ok ==> apply_sections(empty_body(), secs.drop_last()) == Some(acc@)
                    &&& !ok ==> apply_sections(empty_body(), secs.drop_last()) is None
                },
            },
        decreases lines.len() - i,
    {
        let ghost pre = ls.subrange(0, i as int);
        let ghost nxt = ls.subrange(0, i + 1);
        assert(nxt.drop_last() =~= pre);
        proof {
            lemma_chars_deep_view(&lines[i as int]);
        }
        match section_name_of(&lines[i]) {
            Some(n) => {
                match cur {
                    Some(name) => {
                        if ok {
                            match acc.apply(&name, &sec) {
                                Some(b) => {
                                    acc = b;
                                },
                                None => {
                                    ok = false;
                                    acc = Body {
                                        focus: string_from_chars(&Vec::new()),
                                        blockers: Vec::new(),
                                        decisions: Vec::new(),
                                        log: Vec::new(),
                                    };
                                },
                            }
                        }
                    },
                    None => {},
                }
                cur = Some(n);
                sec = Vec::new();
                assert(sec.deep_view() =~= Seq::<Seq<char>>::empty());
                assert(sections_of(nxt).drop_last() =~= sections_of(pre));
            },
            None => {
                if cur.is_some() {
                    let ghost before = sec.deep_view();
                    let l = slice(&lines[i], 0, lines[i].len());
                    assert(lines[i as int]@.subrange(0, lines[i as int]@.len() as int) =~= lines[i as int]@);
                    proof {
                        lemma_chars_deep_view(&l);
                    }
                    sec.push(l);
                    assert(sec.deep_view() =~= before.push(ls[i as int]));
                    assert(sections_of(nxt).drop_last() =~= sections_of(pre).drop_last());
                }
            },
        }
        i = i + 1;
    }
    assert(ls.subrange(0, i as int) =~= ls);
    match cur {
        None => Some(acc),
        Some(name) => {
            if ok {
                acc.apply(&name, &sec)
            } else {
                None
            }
        },
    }
}


// ── Frontmatter ──────────────────────────────────────────────────────

/// `---\nyaml\n---\nbody`: the YAML text and the body. Leading byte-order marks and
/// surrounding white space are ignored; without a closing `---` everything is YAML.
pub open spec fn frontmatter_split(text: Seq<char>) -> Option<(Seq<char>, Seq<char>)> {
    let t = trim(strip_leading(text, '\u{feff}'));
    if !has_prefix_at(t, 0, "---"@) {
        None
    } else {
        let a0 = t.skip(3);
        let a = if a0.len() > 0 && a0[0] == '\n' {
            a0.skip(1)
        } else {
            a0
        };
        match find_from(a, 0, "\n---"@) {
            Some(pos) => {
                let rest = a.skip(pos + 4);
                Some(
                    (
                        a.subrange(0, pos),
                        if rest.len() > 0 && rest[0] == '\n' {
                            rest.skip(1)
                        } else {
                            rest
                        },
                    ),
                )
            },
            None => Some((a, Seq::empty())),
        }
    }
}

fn frontmatter_split_of(text: &Vec<char>) -> (r: Option<(Vec<char>, Vec<char>)>)
    ensures
        match (r, frontmatter_split(text@)) {
            (Some((y, b)), Some((ys, bs))) => y@ == ys && b@ == bs,
            (None, None) => true,
            _ => false,
        },
{
    proof {
        reveal_strlit("---");
        reveal_strlit("\n---");
    }
    let k = strip_leading_from(text, 0, text.len(), '\u{feff}');
    assert(text@.subrange(0, text@.len() as int) =~= text@);
    let (lo, hi) = trim_range(text, k, text.len());
    let t = slice(text, lo, hi);
    if !has_prefix_lit(&t, 0, "---") {
        return None;
    }
    let mut a_start: usize = 3;
    if t.len() > 3 && t[3] == '\n' {
        a_start = 4;
    }
    let a = slice(&t, a_start, t.len());
    assert(a@ =~= (if t@.skip(3).len() > 0 && t@.skip(3)[0] == '\n' {
        t@.skip(3).skip(1)
    } else {
        t@.skip(3)
    }));
    let pat = str_chars("\n---");
    match find_at(&a, 0, &pat) {
        Some(pos) => {
            let y = slice(&a, 0, pos);
            let mut b_start = pos + 4;
            if b_start < a.len() && a[b_start] == '\n' {
                b_start = b_start + 1;
            }
            let b = slice(&a, b_start, a.len());
            assert(b@ =~= (if a@.skip(pos + 4).len() > 0 && a@.skip(pos + 4)[0] == '\n' {
                a@.skip(pos + 4).skip(1)
            } else {
                a@.skip(pos + 4)
            }));
            Some((y, b))
        },
        None => Some((a, Vec::new())),
    }
}

// ── Frontmatter values ───────────────────────────────────────────────

/// A string, number or boolean, as text.
pub open spec fn meta_str(v: MetaView) -> Option<Seq<char>> {
    match v {
        MetaView::Str(s) => Some(s),
        MetaView::Number(t, _) => Some(t),
        MetaView::Bool(b) => Some(
            if b {
                "true"@
            } else {
                "false"@
            },
        ),
        _ => None,
    }
}

/// A whole number (cut to 32 bits), or a string that parses as a `u32`.
pub open spec fn meta_u32(v: MetaView) -> Option<u32> {
    match v {
        MetaView::Number(_, Some(n)) => Some(n as u32),
        MetaView::Str(s) => parse_u32(s),
        _ => None,
    }
}

pub open spec fn meta_date(v: MetaView) -> Option<Date> {
    match meta_str(v) {
        Some(s) => chrono_parse_ymd(s),
        None => None,
    }
}

/// The string items of a list.
pub open spec fn string_items(items: Seq<Option<Seq<char>>>) -> Seq<Seq<char>>
    decreases items.len(),
{
    if items.len() == 0 {
        Seq::empty()
    } else {
        match items.last() {
            Some(x) => string_items(items.drop_last()).push(x),
            None => string_items(items.drop_last()),
        }
    }
}

pub open spec fn meta_list(v: MetaView) -> Seq<Seq<char>> {
    match v {
        MetaView::List(items) => string_items(items),
        _ => Seq::empty(),
    }
}

fn meta_str_of(v: &MetaValue) -> (r: Option<String>)
    ensures
        match (r, meta_str(v@)) {
            (Some(a), Some(b)) => a@ == b,
            (None, None) => true,
            _ => false,
        },
{
    match v {
        MetaValue::Str(s) => Some(string_from_chars(&str_chars(s.as_str()))),
        MetaValue::Number(t, _) => Some(string_from_chars(&str_chars(t.as_str()))),
        MetaValue::Bool(b) => Some(
            if *b {
                string_from_chars(&str_chars("true"))
            } else {
                string_from_chars(&str_chars("false"))
            },
        ),
        _ => None,
    }
}

fn meta_u32_of(v: &MetaValue) -> (r: Option<u32>)
    ensures
        r == meta_u32(v@),
{
    match v {
        MetaValue::Number(_, Some(n)) => Some(*n as u32),
        MetaValue::Str(s) => {
            let cs = str_chars(s.as_str());
            let r = parse_u32_range(&cs, 0, cs.len());
            assert(cs@.subrange(0, cs@.len() as int) =~= cs@);
            r
        },
        _ => None,
    }
}

fn meta_date_of(v: &MetaValue) -> (r: Option<Date>)
    ensures
        r == meta_date(v@),
{
    match meta_str_of(v) {
        Some(s) => parse_ymd(s.as_str()),
        None => None,
    }
}

fn meta_list_of(v: &MetaValue) -> (r: Vec<String>)
    ensures
        r.deep_view() == meta_list(v@),
{
    let mut out: Vec<String> = Vec::new();
    match v {
        MetaValue::List(items) => {
            let ghost iv = items@.map_values(
                |o: Option<String>|
                    match o {
                        Some(x) => Some(x@),
                        None => None,
                    },
            );
            let mut i: usize = 0;
            while i < items.len()
                invariant
                    i <= items.len(),
                    iv == items@.map_values(
                        |o: Option<String>|
                            match o {
                                Some(x) => Some(x@),
                                None => None,
                            },
                    ),
                    out.deep_view() == string_items(iv.subrange(0, i as int)),
                decreases items.len() - i,
            {
                assert(iv.subrange(0, i + 1).drop_last() =~= iv.subrange(0, i as int));
                match &items[i] {
                    Some(x) => {
                        let ghost before = out.deep_view();
                        out.push(string_from_chars(&str_chars(x.as_str())));
                        assert(out.deep_view() =~= before.push(x@));
                    },
                    None => {},
                }
                i = i + 1;
            }
            assert(iv.subrange(0, i as int) =~= iv);
        },
        _ => {
            assert(out.deep_view() =~= Seq::<Seq<char>>::empty());
        },
    }
    out
}

// ── Whole files ──────────────────────────────────────────────────────

pub open spec fn missing_frontmatter() -> Seq<char> {
    "missing YAML frontmatter (file must start with '---')"@
}

/// The project that a frontmatter block and a body give.
pub open spec fn project_of(y: Seq<char>, b: BodyView, slug: Option<Seq<char>>, today: Date) -> ProjectView {
    let name = match meta_str(yaml_lookup(y, "name"@)) {
        Some(n) => n,
        None => Seq::empty(),
    };
    ProjectView {
        name,
        slug: match slug {
            Some(s) => s,
            None => slug_of(name),
        },
        status: match meta_str(yaml_lookup(y, "status"@)) {
            Some(s) => match parse_status(s) {
                Ok(st) => st,
                Err(_) => Status::Active,
            },
            None => Status::Active,
        },
        priority: match meta_str(yaml_lookup(y, "priority"@)) {
            Some(s) => match parse_priority(s) {
                Ok(p) => p,
                Err(_) => Priority::Medium,
            },
            None => Priority::Medium,
        },
        tags: meta_list(yaml_lookup(y, "tags"@)),
        created: match meta_date(yaml_lookup(y, "created"@)) {
            Some(d) => d,
            None => today,
        },
        target: meta_date(yaml_lookup(y, "target"@)),
        active_issue: meta_u32(yaml_lookup(y, "active_issue"@)),
        current_focus: b.focus,
        blockers: b.blockers,
        decisions: b.decisions,
        log: b.log,
    }
}

/// Reading a project file: the project or the error message; `None` where reading
/// panics (a decision or log date that is not a calendar date). `today` stands in for
/// a missing creation date; `slug` is the file's slug, where known.
pub open spec fn parse_project(text: Seq<char>, slug: Option<Seq<char>>, today: Date) -> Option<
    Result<ProjectView, Seq<char>>,
> {
    match frontmatter_split(text) {
        None => Some(Err(missing_frontmatter())),
        Some((y, body)) => if !yaml_parses(y) {
            Some(Err("YAML parse error: "@ + yaml_error(y)))
        } else {
            match project_body(body) {
                Some(b) => Some(Ok(project_of(y, b, slug, today))),
                None => None,
            }
        },
    }
}

/// Whether reading `text` panics; it does not depend on the slug or the date.
pub open spec fn reading_panics(text: Seq<char>) -> bool {
    match frontmatter_split(text) {
        Some((y, body)) => yaml_parses(y) && project_body(body) is None,
        None => false,
    }
}

pub open spec fn result_view(r: Result<Project, String>) -> Result<ProjectView, Seq<char>> {
    match r {
        Ok(p) => Ok(p@),
        Err(e) => Err(e@),
    }
}

pub open spec fn opt_slug(slug: Option<&str>) -> Option<Seq<char>> {
    match slug {
        Some(s) => Some(s@),
        None => None,
    }
}

fn lookup(yaml: &str, key: &str) -> (r: MetaValue)
    requires
        yaml_parses(yaml@),
    ensures
        r@ == yaml_lookup(yaml@, key@),
        forall|d: Seq<(Seq<char>, YamlItem)>| #[trigger] written_doc(d, yaml@) ==> r@ == doc_lookup(d, key@),
{
    match yaml_entry(yaml, key) {
        Ok(v) => v,
        Err(_) => MetaValue::Absent,
    }
}

fn read_project(text: &str, slug: Option<&str>, today: Date) -> (r: Option<
    Result<Project, String>,
>)
    ensures
        match (r, parse_project(text@, opt_slug(slug), today)) {
            (Some(a), Some(b)) => result_view(a) == b,
            (None, None) => true,
            _ => false,
        },
        match frontmatter_split(text@) {
            Some((y, _)) => frontmatter_read(y),
            None => true,
        },
{
    let cs = str_chars(text);
    let (y, body) = match frontmatter_split_of(&cs) {
        Some(x) => x,
        None => {
            return Some(
                Err(string_from_chars(&str_chars("missing YAML frontmatter (file must start with '---')"))),
            );
        },
    };
    let ys = string_from_chars(&y);
    let first = yaml_entry(ys.as_str(), "name");
    let name_v = match first {
        Ok(v) => v,
        Err(e) => {
            let mut m: Vec<char> = Vec::new();
            push_str(&mut m, "YAML parse error: ");
            push_chars(&mut m, &str_chars(e.as_str()));
            return Some(Err(string_from_chars(&m)));
        },
    };
    let status_v = lookup(ys.as_str(), "status");
    let priority_v = lookup(ys.as_str(), "priority");
    let tags_v = lookup(ys.as_str(), "tags");
    let created_v = lookup(ys.as_str(), "created");
    let target_v = lookup(ys.as_str(), "target");
    let active_v = lookup(ys.as_str(), "active_issue");
    assert(frontmatter_read(ys@));
    let b = match body_of(&body) {
        Some(b) => b,
        None => {
            return None;
        },
    };
    let name = match meta_str_of(&name_v) {
        Some(n) => n,
        None => string_from_chars(&Vec::new()),
    };
    let status = match meta_str_of(&status_v) {
        Some(s) => match Status::parse(s.as_str()) {
            Ok(st) => st,
            Err(_) => Status::Active,
        },
        None => Status::Active,
    };
    let priority = match meta_str_of(&priority_v) {
        Some(s) => match Priority::parse(s.as_str()) {
            Ok(p) => p,
            Err(_) => Priority::Medium,
        },
        None => Priority::Medium,
    };
    let tags = meta_list_of(&tags_v);
    let created = match meta_date_of(&created_v) {
        Some(d) => d,
        None => today,
    };
    let target = meta_date_of(&target_v);
    let active_issue = meta_u32_of(&active_v);
    let final_slug = match slug {
        Some(s) => string_from_chars(&str_chars(s)),
        None => crate::project::slug_from(name.as_str()),
    };
    let p = Project {
        name,
        slug: final_slug,
        status,
        priority,
        tags,
        created,
        target,
        active_issue,
        current_focus: b.focus,
        blockers: b.blockers,
        decisions: b.decisions,
        log: b.log,
    };
    assert(p@ == project_of(y@, b@, opt_slug(slug), today));
    Some(Ok(p))
}

impl Project {
    /// Whether reading `text` as a project file completes (rather than panicking on a
    /// decision or log date that is not a calendar date).
    pub fn reads_without_panic(text: &str) -> (b: bool)
        ensures
            b == !reading_panics(text@),
    {
        let cs = str_chars(text);
        match frontmatter_split_of(&cs) {
            None => true,
            Some((y, body)) => {
                let ys = string_from_chars(&y);
                match yaml_entry(ys.as_str(), "name") {
                    Err(_) => true,
                    Ok(_) => body_of(&body).is_some(),
                }
            },
        }
    }

    /// Parse from markdown with YAML frontmatter, with `today` standing in for a missing
    /// creation date. The `slug` parameter is the authoritative slug (derived from the
    /// filename); if `None`, it is derived from the name field. The markdown of a project
    /// that `project_reads_back` describes reads back as that project, so writing it again
    /// gives the same text.
    pub fn from_markdown_with_slug_on(text: &str, slug: Option<&str>, today: Date) -> (r: Result<
        Project,
        String,
    >)
        requires
            !reading_panics(text@),
        ensures
            parse_project(text@, opt_slug(slug), today) == Some(result_view(r)),
            forall|p: ProjectView|
                project_reads_back(p, opt_slug(slug)) && #[trigger] project_text(p) == text@ ==> (r
                    matches Ok(q) && q@ == p && project_text(q@) == text@),
    {
        let res = read_project(text, slug, today);
        proof {
            assert forall|p: ProjectView|
                project_reads_back(p, opt_slug(slug)) && #[trigger] project_text(p) == text@
                implies parse_project(text@, opt_slug(slug), today) == Some(
                Ok::<ProjectView, Seq<char>>(p),
            ) by {
                crate::project_laws::lemma_split_project(p);
                crate::person_laws::lemma_ascii_digits_match();
                lemma_read_written_project(p, opt_slug(slug), today);
            }
        }
        match res {
            Some(r) => r,
            None => {
                assert(false);
                Err(string_from_chars(&Vec::new()))
            },
        }
    }

    /// The same reading, where it completes; `None` where reading panics.
    pub fn try_from_markdown_with_slug_on(text: &str, slug: Option<&str>, today: Date) -> (r: Option<
        Result<Project, String>,
    >)
        ensures
            match (r, parse_project(text@, opt_slug(slug), today)) {
                (Some(a), Some(b)) => result_view(a) == b,
                (None, None) => true,
                _ => false,
            },
    {
        if Self::reads_without_panic(text) {
            Some(Self::from_markdown_with_slug_on(text, slug, today))
        } else {
            None
        }
    }

    /// Parse from markdown with YAML frontmatter; a missing creation date becomes today.
    pub fn from_markdown_with_slug(text: &str, slug: Option<&str>) -> (r: Result<Project, String>)
        requires
            !reading_panics(text@),
        ensures
            exists|d: Date| d.wf() && #[trigger] parse_project(text@, opt_slug(slug), d) == Some(
                result_view(r),
            ),
            forall|p: ProjectView|
                project_reads_back(p, opt_slug(slug)) && #[trigger] project_text(p) == text@ ==> (r
                    matches Ok(q) && q@ == p && project_text(q@) == text@),
    {
        let d = today();
        Self::from_markdown_with_slug_on(text, slug, d)
    }

    /// Parse from markdown with YAML frontmatter, deriving the slug from the name. The
    /// markdown of a project that `project_reads_back` describes reads back as that project,
    /// so writing it again gives the same text.
    pub fn from_markdown(text: &str) -> (r: Result<Project, String>)
        requires
            !reading_panics(text@),
        ensures
            exists|d: Date| d.wf() && #[trigger] parse_project(text@, None, d) == Some(
                result_view(r),
            ),
            forall|p: ProjectView|
                project_reads_back(p, None) && #[trigger] project_text(p) == text@ ==> (r matches Ok(
                    q,
                ) && q@ == p && project_text(q@) == text@),
    {
        Self::from_markdown_with_slug(text, None)
    }

    /// Parse from markdown, where reading completes; `None` where it panics.
    pub fn try_from_markdown(text: &str) -> (r: Option<Result<Project, String>>)
        ensures
            r is None <==> reading_panics(text@),
            r matches Some(x) ==> exists|d: Date| d.wf() && #[trigger] parse_project(text@, None, d)
                == Some(result_view(x)),
    {
        if Self::reads_without_panic(text) {
            Some(Self::from_markdown(text))
        } else {
            None
        }
    }
}

} // verus!
