//! People: the people file lists each person with a role, projects and pending asks.
//!
//! ```markdown
//! ## @carol
//! - Role: Display Systems Lead
//! - Projects: HMI Framework
//! - Pending: spec clarification (asked 2026-03-14) [HMI Framework]
//! ```
use vstd::prelude::*;
use crate::date::{chrono_parse_ymd, date_text, parse_ymd, push_date, Date};
use crate::text::{
    run_len, ws_end,
    has_prefix_at, is_ws, is_whitespace, join, lemma_chars_deep_view, push_chars, push_joined,
    push_str, push_string, range_starts_with, slice, split_char, split_on, str_chars,
    string_from_chars, trim, trim_range, trim_start, trimmed,
};

verus! {

broadcast use vstd::string::group_string_axioms;

// ── Character classes of the file format ─────────────────────────────

/// Whether a character outside ASCII is in regex's `\d` class.
pub uninterp spec fn unicode_digit_other(c: char) -> bool;

/// Whether a character outside ASCII is in regex's `\w` class.
pub uninterp spec fn word_char_other(c: char) -> bool;

/// Whether `c` is in regex's `\d` class (Unicode decimal digits): of ASCII, `0` to `9`.
pub open spec fn unicode_digit(c: char) -> bool {
    if (c as u32) < 128 {
        '0' <= c && c <= '9'
    } else {
        unicode_digit_other(c)
    }
}

/// Whether `c` is in regex's `\w` class (Unicode word characters): of ASCII, the letters,
/// the digits and `_`.
pub open spec fn word_char(c: char) -> bool {
    if (c as u32) < 128 {
        ('a' <= c && c <= 'z') || ('A' <= c && c <= 'Z') || ('0' <= c && c <= '9') || c == '_'
    } else {
        word_char_other(c)
    }
}

/// Calls the `regex` crate to test `c` against `\d`. The regex documentation says `\d` is
/// Unicode's decimal digits (`Nd`), of which ASCII holds `0` to `9`; the contract claims that,
/// and names the result for other characters.
#[verifier::external_body]
pub(crate) fn is_unicode_digit(c: char) -> (r: bool)
    ensures
        r == unicode_digit(c),
        (c as u32) >= 128 ==> r == unicode_digit_other(c),
{
    let mut buf = [0u8; 4];
    regex::Regex::new(r"\A\d\z").unwrap().is_match(c.encode_utf8(&mut buf))
}

/// Calls the `regex` crate to test `c` against `\w`. The regex documentation says `\w` is
/// Unicode's word characters (`Alphabetic`, `M`, `Nd`, `Pc`, `Join_Control`), of which ASCII
/// holds the letters, the digits and `_`; the contract claims that, and names the result for
/// other characters.
#[verifier::external_body]
pub(crate) fn is_word_char(c: char) -> (r: bool)
    ensures
        r == word_char(c),
        (c as u32) >= 128 ==> r == word_char_other(c),
{
    let mut buf = [0u8; 4];
    regex::Regex::new(r"\A\w\z").unwrap().is_match(c.encode_utf8(&mut buf))
}

// ── Data types ───────────────────────────────────────────────────────

#[derive(Clone, Debug, PartialEq)]
pub struct PendingItem {
    pub description: String,
    pub since: Option<Date>,
    pub project: Option<String>,
}

pub struct PendingItemView {
    pub description: Seq<char>,
    pub since: Option<Date>,
    pub project: Option<Seq<char>>,
}

impl View for PendingItem {
    type V = PendingItemView;

    open spec fn view(&self) -> PendingItemView {
        PendingItemView {
            description: self.description@,
            since: self.since,
            project: match self.project {
                Some(p) => Some(p@),
                None => None,
            },
        }
    }
}

#[derive(Clone, Debug, PartialEq)]
pub struct Person {
    pub handle: String,
    pub role: String,
    pub projects: Vec<String>,
    pub pending: Vec<PendingItem>,
}

pub struct PersonView {
    pub handle: Seq<char>,
    pub role: Seq<char>,
    pub projects: Seq<Seq<char>>,
    pub pending: Seq<PendingItemView>,
}

impl View for Person {
    type V = PersonView;

    open spec fn view(&self) -> PersonView {
        PersonView {
            handle: self.handle@,
            role: self.role@,
            projects: self.projects.deep_view(),
            pending: self.pending@.map_values(|p: PendingItem| p@),
        }
    }
}

pub open spec fn new_person(handle: Seq<char>) -> PersonView {
    PersonView {
        handle,
        role: Seq::<char>::empty(),
        projects: Seq::<Seq<char>>::empty(),
        pending: Seq::<PendingItemView>::empty(),
    }
}

impl Person {
    pub fn new(handle: &str) -> (r: Person)
        ensures
            r@ == new_person(handle@),
    {
        let h = str_chars(handle);
        let r = Person {
            handle: string_from_chars(&h),
            role: string_from_chars(&Vec::new()),
            projects: Vec::new(),
            pending: Vec::new(),
        };
        assert(r@.projects =~= Seq::<Seq<char>>::empty());
        assert(r@.pending =~= Seq::<PendingItemView>::empty());
        r
    }
}

#[derive(Clone, Debug, PartialEq)]
pub struct PeopleFile {
    pub people: Vec<Person>,
}

impl PeopleFile {
    pub open spec fn people_view(&self) -> Seq<PersonView> {
        self.people@.map_values(|p: Person| p@)
    }

    pub fn new() -> (r: PeopleFile)
        ensures
            r.people_view().len() == 0,
    {
        PeopleFile { people: Vec::new() }
    }
}

impl Default for PeopleFile {
    fn default() -> (r: PeopleFile)
        ensures
            r.people_view().len() == 0,
    {
        PeopleFile::new()
    }
}

// ── Writing ──────────────────────────────────────────────────────────

pub open spec fn pending_line(p: PendingItemView) -> Seq<char> {
    "- Pending: "@ + p.description + (match p.since {
        Some(d) => " (asked "@ + date_text(d) + ")"@,
        None => Seq::<char>::empty(),
    }) + (match p.project {
        Some(pr) => " ["@ + pr + "]"@,
        None => Seq::<char>::empty(),
    })
}

pub open spec fn pending_lines(ps: Seq<PendingItemView>) -> Seq<Seq<char>>
    decreases ps.len(),
{
    if ps.len() == 0 {
        Seq::<Seq<char>>::empty()
    } else {
        pending_lines(ps.drop_last()).push(pending_line(ps.last()))
    }
}

/// The lines of one person's section.
pub open spec fn person_lines(p: PersonView) -> Seq<Seq<char>> {
    seq!["## "@ + p.handle] + (if p.role.len() > 0 {
        seq!["- Role: "@ + p.role]
    } else {
        Seq::<Seq<char>>::empty()
    }) + (if p.projects.len() > 0 {
        seq!["- Projects: "@ + join(p.projects, ", "@)]
    } else {
        Seq::<Seq<char>>::empty()
    }) + pending_lines(p.pending)
}

pub open spec fn sections(ps: Seq<PersonView>) -> Seq<Seq<char>>
    decreases ps.len(),
{
    if ps.len() == 0 {
        Seq::<Seq<char>>::empty()
    } else {
        sections(ps.drop_last()).push(join(person_lines(ps.last()), "\n"@))
    }
}

/// The markdown form of a people file: each person's lines, people separated by an empty line.
pub open spec fn people_text(ps: Seq<PersonView>) -> Seq<char> {
    join(sections(ps), "\n\n"@)
}

fn pending_line_of(p: &PendingItem) -> (r: Vec<char>)
    ensures
        r@ == pending_line(p@),
{
    let mut t: Vec<char> = Vec::new();
    push_str(&mut t, "- Pending: ");
    push_string(&mut t, &p.description);
    let ghost a = t@;
    if let Some(d) = p.since {
        push_str(&mut t, " (asked ");
        push_date(&mut t, d);
        push_str(&mut t, ")");
    }
    assert(t@ =~= a + (match p@.since {
        Some(d) => " (asked "@ + date_text(d) + ")"@,
        None => Seq::<char>::empty(),
    }));
    let ghost b = t@;
    if let Some(pr) = &p.project {
        push_str(&mut t, " [");
        push_string(&mut t, pr);
        push_str(&mut t, "]");
    }
    assert(t@ =~= b + (match p@.project {
        Some(pr) => " ["@ + pr + "]"@,
        None => Seq::<char>::empty(),
    }));
    t
}

fn person_lines_of(p: &Person) -> (r: Vec<Vec<char>>)
    ensures
        r.deep_view() == person_lines(p@),
{
    let mut r: Vec<Vec<char>> = Vec::new();
    let mut l: Vec<char> = Vec::new();
    push_str(&mut l, "## ");
    push_string(&mut l, &p.handle);
    proof { lemma_chars_deep_view(&l); }
    r.push(l);
    let ghost acc = seq!["## "@ + p@.handle];
    assert(r.deep_view() =~= acc);
    if p.role.as_str().is_empty() == false {
        let mut l: Vec<char> = Vec::new();
        push_str(&mut l, "- Role: ");
        push_string(&mut l, &p.role);
        proof { lemma_chars_deep_view(&l); }
        r.push(l);
    }
    let ghost acc = acc + (if p@.role.len() > 0 {
        seq!["- Role: "@ + p@.role]
    } else {
        Seq::<Seq<char>>::empty()
    });
    assert(r.deep_view() =~= acc);
    if p.projects.len() > 0 {
        let mut l: Vec<char> = Vec::new();
        push_str(&mut l, "- Projects: ");
        let mut parts: Vec<Vec<char>> = Vec::new();
        let mut k: usize = 0;
        while k < p.projects.len()
            invariant
                k <= p.projects.len(),
                parts.deep_view() == p.projects.deep_view().subrange(0, k as int),
            decreases p.projects.len() - k,
        {
            let c = str_chars(p.projects[k].as_str());
            let ghost old_parts = parts.deep_view();
            proof { lemma_chars_deep_view(&c); }
            parts.push(c);
            assert(parts.deep_view() =~= old_parts.push(p.projects[k as int]@));
            assert(p.projects.deep_view().subrange(0, k + 1) =~= p.projects.deep_view().subrange(
                0,
                k as int,
            ).push(p.projects[k as int]@));
            k = k + 1;
        }
        assert(p.projects.deep_view().subrange(0, p.projects.len() as int)
            =~= p.projects.deep_view());
        let sep = str_chars(", ");
        push_joined(&mut l, &parts, &sep);
        proof { lemma_chars_deep_view(&l); }
        r.push(l);
    }
    let ghost acc = acc + (if p@.projects.len() > 0 {
        seq!["- Projects: "@ + join(p@.projects, ", "@)]
    } else {
        Seq::<Seq<char>>::empty()
    });
    assert(r.deep_view() =~= acc);
    let mut k: usize = 0;
    while k < p.pending.len()
        invariant
            k <= p.pending.len(),
            r.deep_view() == acc + pending_lines(p@.pending.subrange(0, k as int)),
        decreases p.pending.len() - k,
    {
        let pl = pending_line_of(&p.pending[k]);
        let ghost old_r = r.deep_view();
        proof { lemma_chars_deep_view(&pl); }
        r.push(pl);
        let ghost nxt = p@.pending.subrange(0, k + 1);
        assert(nxt.drop_last() =~= p@.pending.subrange(0, k as int));
        assert(r.deep_view() =~= old_r.push(pending_line(nxt.last())));
        k = k + 1;
    }
    assert(p@.pending.subrange(0, p.pending.len() as int) =~= p@.pending);
    r
}

impl PeopleFile {
    /// The markdown form of the people file (no frontmatter).
    pub fn to_markdown(&self) -> (r: String)
        ensures
            r@ == people_text(self.people_view()),
    {
        let mut secs: Vec<Vec<char>> = Vec::new();
        let nl = str_chars("\n");
        let mut i: usize = 0;
        while i < self.people.len()
            invariant
                i <= self.people.len(),
                nl@ == "\n"@,
                secs.deep_view() == sections(self.people_view().subrange(0, i as int)),
            decreases self.people.len() - i,
        {
            let ls = person_lines_of(&self.people[i]);
            let mut sec: Vec<char> = Vec::new();
            push_joined(&mut sec, &ls, &nl);
            let ghost old_s = secs.deep_view();
            proof { lemma_chars_deep_view(&sec); }
            secs.push(sec);
            let ghost nxt = self.people_view().subrange(0, i + 1);
            assert(nxt.drop_last() =~= self.people_view().subrange(0, i as int));
            assert(nxt.last() == self.people[i as int]@);
            assert(secs.deep_view() =~= old_s.push(join(person_lines(nxt.last()), "\n"@)));
            i = i + 1;
        }
        assert(self.people_view().subrange(0, self.people.len() as int) =~= self.people_view());
        let mut out: Vec<char> = Vec::new();
        let sep = str_chars("\n\n");
        push_joined(&mut out, &secs, &sep);
        assert(out@ =~= people_text(self.people_view()));
        string_from_chars(&out)
    }
}

// ── Reading ──────────────────────────────────────────────────────────

pub open spec fn is_handle_char(c: char) -> bool {
    word_char(c) || c == '-'
}

/// `^##\s+(@[\w-]+)`: the handle a person header names.
pub open spec fn person_header(l: Seq<char>) -> Option<Seq<char>> {
    if !has_prefix_at(l, 0, "##"@) {
        None
    } else {
        let w = run_len(l.skip(2), |c: char| is_ws(c)) as int;
        let j = 2 + w;
        if w == 0 || j >= l.len() || l[j] != '@' {
            None
        } else {
            let r = run_len(l.skip(j + 1), |c: char| is_handle_char(c)) as int;
            if r == 0 {
                None
            } else {
                Some(l.subrange(j, j + 1 + r))
            }
        }
    }
}

/// `^-\s+(.*)`: the content of a bullet line.
pub open spec fn bullet(t: Seq<char>) -> Option<Seq<char>> {
    if t.len() == 0 || t[0] != '-' {
        None
    } else {
        let w = run_len(t.skip(1), |c: char| is_ws(c)) as int;
        if w == 0 {
            None
        } else {
            Some(t.skip(1 + w))
        }
    }
}

/// The non-empty trimmed pieces of a comma-separated list.
pub open spec fn nonempty_trimmed(ps: Seq<Seq<char>>) -> Seq<Seq<char>>
    decreases ps.len(),
{
    if ps.len() == 0 {
        Seq::<Seq<char>>::empty()
    } else if trim(ps.last()).len() > 0 {
        nonempty_trimmed(ps.drop_last()).push(trim(ps.last()))
    } else {
        nonempty_trimmed(ps.drop_last())
    }
}

pub open spec fn project_list(s: Seq<char>) -> Seq<Seq<char>> {
    nonempty_trimmed(split_on(trim_start(s), ','))
}

pub open spec fn digits_at(s: Seq<char>, i: int, n: int) -> bool {
    &&& 0 <= i
    &&& i + n <= s.len()
    &&& forall|k: int| i <= k < i + n ==> unicode_digit(#[trigger] s[k])
}

/// `\(asked\s+(\d{4}-\d{2}-\d{2})\)` at position `i`: where the date starts and where the
/// match ends.
pub open spec fn asked_at(s: Seq<char>, i: int) -> Option<(int, int)> {
    if !has_prefix_at(s, i, "(asked"@) {
        None
    } else {
        let w = run_len(s.skip(i + 6), |c: char| is_ws(c)) as int;
        let j = i + 6 + w;
        if w == 0 || j + 11 > s.len() {
            None
        } else if digits_at(s, j, 4) && s[j + 4] == '-' && digits_at(s, j + 5, 2) && s[j + 7]
            == '-' && digits_at(s, j + 8, 2) && s[j + 10] == ')' {
            Some((j, j + 11))
        } else {
            None
        }
    }
}

/// The leftmost match of the asked-date pattern at or after `i`: its start, the start of
/// the date, and its end.
pub open spec fn find_asked(s: Seq<char>, i: int) -> Option<(int, int, int)>
    decreases s.len() + 1 - i,
{
    if i < 0 || i > s.len() {
        None
    } else {
        match asked_at(s, i) {
            Some((j, e)) => Some((i, j, e)),
            None => find_asked(s, i + 1),
        }
    }
}

/// `\[([^\]]+)\]` at position `i`: the end of the match.
pub open spec fn bracket_at(s: Seq<char>, i: int) -> Option<int> {
    if i < 0 || i >= s.len() || s[i] != '[' {
        None
    } else {
        let k = run_len(s.skip(i + 1), |c: char| c != ']') as int;
        if k >= 1 && i + 1 + k < s.len() {
            Some(i + 2 + k)
        } else {
            None
        }
    }
}

pub open spec fn find_bracket(s: Seq<char>, i: int) -> Option<(int, int)>
    decreases s.len() + 1 - i,
{
    if i < 0 || i > s.len() {
        None
    } else {
        match bracket_at(s, i) {
            Some(e) => Some((i, e)),
            None => find_bracket(s, i + 1),
        }
    }
}

/// `s` with `s[a..b]` cut out, then trimmed.
pub open spec fn cut(s: Seq<char>, a: int, b: int) -> Seq<char> {
    trim(s.take(a) + s.skip(b))
}

/// A pending item: its asked date and its bracketed project cut out of the text.
pub open spec fn parse_pending(t: Seq<char>) -> PendingItemView {
    let (t1, since) = match find_asked(t, 0) {
        Some((i, j, e)) => (cut(t, i, e), chrono_parse_ymd(t.subrange(j, j + 10))),
        None => (t, None),
    };
    let (t2, project) = match find_bracket(t1, 0) {
        Some((i, e)) => (cut(t1, i, e), Some(t1.subrange(i + 1, e - 1))),
        None => (t1, None),
    };
    PendingItemView { description: t2, since, project }
}

pub open spec fn step_line(
    st: (Seq<PersonView>, Option<PersonView>),
    line: Seq<char>,
) -> (Seq<PersonView>, Option<PersonView>) {
    match person_header(line) {
        Some(h) => (
            match st.1 {
                Some(p) => st.0.push(p),
                None => st.0,
            },
            Some(new_person(h)),
        ),
        None => match st.1 {
            None => st,
            Some(p) => {
                let t = trim(line);
                if t.len() == 0 {
                    st
                } else {
                    match bullet(t) {
                        None => st,
                        Some(c) => if has_prefix_at(c, 0, "Role:"@) {
                            (st.0, Some(PersonView { role: trim(c.skip(5)), ..p }))
                        } else if has_prefix_at(c, 0, "Projects:"@) {
                            (st.0, Some(PersonView { projects: project_list(c.skip(9)), ..p }))
                        } else if has_prefix_at(c, 0, "Pending:"@) {
                            (
                                st.0,
                                Some(
                                    PersonView {
                                        pending: p.pending.push(parse_pending(trim(c.skip(8)))),
                                        ..p
                                    },
                                ),
                            )
                        } else {
                            st
                        },
                    }
                }
            },
        },
    }
}

pub open spec fn fold_lines(ls: Seq<Seq<char>>) -> (Seq<PersonView>, Option<PersonView>)
    decreases ls.len(),
{
    if ls.len() == 0 {
        (Seq::<PersonView>::empty(), None)
    } else {
        step_line(fold_lines(ls.drop_last()), ls.last())
    }
}

/// What `PeopleFile::from_markdown` reads from `text`.
pub open spec fn parse_people(text: Seq<char>) -> Seq<PersonView> {
    let st = fold_lines(split_on(text, '\n'));
    match st.1 {
        Some(p) => st.0.push(p),
        None => st.0,
    }
}

// ── Reading: executable parts ─────────────────────────────────────────

fn handle_end(s: &Vec<char>, from: usize) -> (r: usize)
    requires
        from <= s.len(),
    ensures
        from <= r <= s.len(),
        r - from == run_len(s@.skip(from as int), |c: char| is_handle_char(c)),
{
    let mut i = from;
    while i < s.len() && (is_word_char(s[i]) || s[i] == '-')
        invariant
            from <= i <= s.len(),
            (i - from) + run_len(s@.skip(i as int), |c: char| is_handle_char(c)) == run_len(
                s@.skip(from as int),
                |c: char| is_handle_char(c),
            ),
        decreases s.len() - i,
    {
        assert(s@.skip(i as int).drop_first() =~= s@.skip(i + 1));
        i = i + 1;
    }
    i
}

fn not_bracket_end(s: &Vec<char>, from: usize) -> (r: usize)
    requires
        from <= s.len(),
    ensures
        from <= r <= s.len(),
        r - from == run_len(s@.skip(from as int), |c: char| c != ']'),
{
    let mut i = from;
    while i < s.len() && s[i] != ']'
        invariant
            from <= i <= s.len(),
            (i - from) + run_len(s@.skip(i as int), |c: char| c != ']') == run_len(
                s@.skip(from as int),
                |c: char| c != ']',
            ),
        decreases s.len() - i,
    {
        assert(s@.skip(i as int).drop_first() =~= s@.skip(i + 1));
        i = i + 1;
    }
    i
}

fn lit(s: &str) -> (r: Vec<char>)
    ensures
        r@ == s@,
{
    str_chars(s)
}

fn person_header_of(l: &Vec<char>) -> (r: Option<Vec<char>>)
    ensures
        r.deep_view() == person_header(l@),
{
    let hh = lit("##");
    proof { reveal_strlit("##"); }
    if !range_starts_with(l, 0, l.len(), &hh) {
        assert(l@.subrange(0, l@.len() as int) =~= l@);
        return None;
    }
    assert(l@.subrange(0, l@.len() as int) =~= l@);
    let j = ws_end(l, 2);
    if j == 2 || j >= l.len() || l[j] != '@' {
        return None;
    }
    let e = handle_end(l, j + 1);
    if e == j + 1 {
        return None;
    }
    let h = slice(l, j, e);
    proof { lemma_chars_deep_view(&h); }
    Some(h)
}

fn bullet_of(t: &Vec<char>) -> (r: Option<usize>)
    ensures
        match (r, bullet(t@)) {
            (Some(k), Some(c)) => k <= t.len() && c == t@.skip(k as int),
            (None, None) => true,
            _ => false,
        },
{
    if t.len() == 0 || t[0] != '-' {
        return None;
    }
    let e = ws_end(t, 1);
    if e == 1 {
        None
    } else {
        Some(e)
    }
}

pub(crate) fn digits_at_of(s: &Vec<char>, i: usize, n: usize) -> (b: bool)
    requires
        i + n <= s.len(),
    ensures
        b == digits_at(s@, i as int, n as int),
{
    let mut k = i;
    while k < i + n
        invariant
            i <= k <= i + n <= s.len(),
            forall|m: int| i <= m < k ==> unicode_digit(#[trigger] s@[m]),
        decreases i + n - k,
    {
        if !is_unicode_digit(s[k]) {
            return false;
        }
        k = k + 1;
    }
    true
}

fn asked_at_of(s: &Vec<char>, i: usize, pat: &Vec<char>) -> (r: Option<(usize, usize)>)
    requires
        i <= s.len(),
        pat@ == "(asked"@,
    ensures
        match (r, asked_at(s@, i as int)) {
            (Some((a, b)), Some((c, d))) => a == c && b == d && b <= s.len() && a + 10 <= b,
            (None, None) => true,
            _ => false,
        },
{
    proof { reveal_strlit("(asked"); }
    if !range_starts_with(s, i, s.len(), pat) {
        assert(has_prefix_at(s@, i as int, pat@) == has_prefix_at(
            s@.subrange(i as int, s@.len() as int),
            0,
            pat@,
        )) by {
            if i + 6 <= s.len() {
                assert(s@.subrange(i as int, s@.len() as int).subrange(0, 6) =~= s@.subrange(
                    i as int,
                    i + 6,
                ));
            }
        }
        return None;
    }
    assert(s@.subrange(i as int, s@.len() as int).subrange(0, 6) =~= s@.subrange(i as int, i + 6));
    let j = ws_end(s, i + 6);
    let w = j - (i + 6);
    if w == 0 || s.len() < 11 || j > s.len() - 11 {
        return None;
    }
    if digits_at_of(s, j, 4) && s[j + 4] == '-' && digits_at_of(s, j + 5, 2) && s[j + 7] == '-'
        && digits_at_of(s, j + 8, 2) && s[j + 10] == ')' {
        Some((j, j + 11))
    } else {
        None
    }
}

fn find_asked_of(s: &Vec<char>) -> (r: Option<(usize, usize, usize)>)
    ensures
        match (r, find_asked(s@, 0)) {
            (Some((a, b, c)), Some((x, y, z))) => a == x && b == y && c == z && a <= b && b + 10
                <= c && c <= s.len(),
            (None, None) => true,
            _ => false,
        },
{
    let pat = lit("(asked");
    let mut i: usize = 0;
    loop
        invariant
            i <= s.len(),
            pat@ == "(asked"@,
            find_asked(s@, i as int) == find_asked(s@, 0),
        decreases s.len() - i,
    {
        proof { reveal_strlit("(asked"); }
        match asked_at_of(s, i, &pat) {
            Some((j, e)) => {
                assert(s@.subrange(i as int, i + 6) == "(asked"@);
                return Some((i, j, e));
            },
            None => {},
        }
        if i == s.len() {
            assert(find_asked(s@, i + 1) == None::<(int, int, int)>);
            return None;
        }
        i = i + 1;
    }
}

fn bracket_at_of(s: &Vec<char>, i: usize) -> (r: Option<usize>)
    requires
        i <= s.len(),
    ensures
        match (r, bracket_at(s@, i as int)) {
            (Some(a), Some(b)) => a == b && i + 3 <= a <= s.len(),
            (None, None) => true,
            _ => false,
        },
{
    if i >= s.len() || s[i] != '[' {
        return None;
    }
    let e = not_bracket_end(s, i + 1);
    let k = e - (i + 1);
    if k >= 1 && e < s.len() {
        Some(e + 1)
    } else {
        None
    }
}

fn find_bracket_of(s: &Vec<char>) -> (r: Option<(usize, usize)>)
    ensures
        match (r, find_bracket(s@, 0)) {
            (Some((a, b)), Some((x, y))) => a == x && b == y && a + 3 <= b <= s.len(),
            (None, None) => true,
            _ => false,
        },
{
    let mut i: usize = 0;
    loop
        invariant
            i <= s.len(),
            find_bracket(s@, i as int) == find_bracket(s@, 0),
        decreases s.len() - i,
    {
        match bracket_at_of(s, i) {
            Some(e) => {
                return Some((i, e));
            },
            None => {},
        }
        if i == s.len() {
            assert(find_bracket(s@, i + 1) == None::<(int, int)>);
            return None;
        }
        i = i + 1;
    }
}

/// `cut(s, a, b)`.
fn cut_of(s: &Vec<char>, a: usize, b: usize) -> (r: Vec<char>)
    requires
        a <= b <= s.len(),
    ensures
        r@ == cut(s@, a as int, b as int),
{
    let mut v = slice(s, 0, a);
    let rest = slice(s, b, s.len());
    push_chars(&mut v, &rest);
    assert(v@ =~= s@.take(a as int) + s@.skip(b as int));
    trimmed(&v)
}

fn parse_pending_of(t: &Vec<char>) -> (r: PendingItem)
    ensures
        r@ == parse_pending(t@),
{
    let (t1, since) = match find_asked_of(t) {
        Some((i, j, e)) => {
            let d = slice(t, j, j + 10);
            let ds = string_from_chars(&d);
            (cut_of(t, i, e), parse_ymd(ds.as_str()))
        },
        None => (slice(t, 0, t.len()), None),
    };
    assert(t@.subrange(0, t@.len() as int) =~= t@);
    let (t2, project) = match find_bracket_of(&t1) {
        Some((i, e)) => {
            let pr = slice(&t1, i + 1, e - 1);
            (cut_of(&t1, i, e), Some(string_from_chars(&pr)))
        },
        None => (slice(&t1, 0, t1.len()), None),
    };
    assert(t1@.subrange(0, t1@.len() as int) =~= t1@);
    let r = PendingItem { description: string_from_chars(&t2), since, project };
    assert(r@.project == parse_pending(t@).project);
    r
}

pub(crate) fn project_list_of(s: &Vec<char>, lo: usize) -> (r: Vec<String>)
    requires
        lo <= s.len(),
    ensures
        r.deep_view() == project_list(s@.skip(lo as int)),
{
    let a = crate::text::trim_start_from(s, lo, s.len());
    assert(s@.subrange(lo as int, s@.len() as int) =~= s@.skip(lo as int));
    let ts = slice(s, a, s.len());
    let pieces = split_char(&ts, ',');
    let mut r: Vec<String> = Vec::new();
    let mut i: usize = 0;
    while i < pieces.len()
        invariant
            i <= pieces.len(),
            r.deep_view() == nonempty_trimmed(pieces.deep_view().subrange(0, i as int)),
        decreases pieces.len() - i,
    {
        let ghost pre = pieces.deep_view().subrange(0, i as int);
        let ghost nxt = pieces.deep_view().subrange(0, i + 1);
        assert(nxt.drop_last() =~= pre);
        proof { lemma_chars_deep_view(&pieces[i as int]); }
        let t = trimmed(&pieces[i]);
        if t.len() > 0 {
            let ghost old_r = r.deep_view();
            r.push(string_from_chars(&t));
            assert(r.deep_view() =~= old_r.push(t@));
        }
        i = i + 1;
    }
    assert(pieces.deep_view().subrange(0, pieces.len() as int) =~= pieces.deep_view());
    r
}

impl PeopleFile {
    /// Reads a people file.
    pub fn from_markdown(text: &str) -> (r: PeopleFile)
        ensures
            r.people_view() == parse_people(text@),
    {
        let cs = str_chars(text);
        let ls = split_char(&cs, '\n');
        let role_p = lit("Role:");
        let proj_p = lit("Projects:");
        let pend_p = lit("Pending:");
        proof {
            reveal_strlit("Role:");
            reveal_strlit("Projects:");
            reveal_strlit("Pending:");
        }
        let mut people: Vec<Person> = Vec::new();
        let mut has_cur = false;
        let mut cur = Person::new("");
        let mut i: usize = 0;
        while i < ls.len()
            invariant
                i <= ls.len(),
                role_p@ == "Role:"@,
                proj_p@ == "Projects:"@,
                pend_p@ == "Pending:"@,
                "Role:"@.len() == 5,
                "Projects:"@.len() == 9,
                "Pending:"@.len() == 8,
                fold_lines(ls.deep_view().subrange(0, i as int)) == (
                    people@.map_values(|p: Person| p@),
                    if has_cur {
                        Some(cur@)
                    } else {
                        None
                    },
                ),
            decreases ls.len() - i,
        {
            let ghost pre = ls.deep_view().subrange(0, i as int);
            let ghost nxt = ls.deep_view().subrange(0, i + 1);
            assert(nxt.drop_last() =~= pre);
            let line = &ls[i];
            proof { lemma_chars_deep_view(line); }
            assert(nxt.last() == line@);
            let ghost old_people = people@.map_values(|p: Person| p@);
            match person_header_of(line) {
                Some(h) => {
                    if has_cur {
                        let ghost cv = cur@;
                        people.push(cur);
                        assert(people@.map_values(|p: Person| p@) =~= old_people.push(cv));
                    }
                    proof { lemma_chars_deep_view(&h); }
                    cur = Person::new(string_from_chars(&h).as_str());
                    has_cur = true;
                },
                None => {
                    if has_cur {
                        let t = trimmed(line);
                        if t.len() > 0 {
                            match bullet_of(&t) {
                                None => {},
                                Some(k) => {
                                    let ghost c = t@.skip(k as int);
                                    let is_role = range_starts_with(&t, k, t.len(), &role_p);
                                    assert(t@.subrange(k as int, t@.len() as int) =~= c);
                                    if is_role {
                                        let (a, b) = trim_range(&t, k + 5, t.len());
                                        assert(t@.subrange(k + 5, t@.len() as int) =~= c.skip(5));
                                        cur.role = string_from_chars(&slice(&t, a, b));
                                    } else if range_starts_with(&t, k, t.len(), &proj_p) {
                                        assert(t@.skip(k + 9) =~= c.skip(9));
                                        cur.projects = project_list_of(&t, k + 9);
                                    } else if range_starts_with(&t, k, t.len(), &pend_p) {
                                        let (a, b) = trim_range(&t, k + 8, t.len());
                                        assert(t@.subrange(k + 8, t@.len() as int) =~= c.skip(8));
                                        let body = slice(&t, a, b);
                                        let item = parse_pending_of(&body);
                                        let ghost old_pending = cur@.pending;
                                        cur.pending.push(item);
                                        assert(cur@.pending =~= old_pending.push(item@));
                                    }
                                },
                            }
                        }
                    }
                },
            }
            i = i + 1;
        }
        assert(ls.deep_view().subrange(0, ls.len() as int) =~= ls.deep_view());
        if has_cur {
            let ghost old_people = people@.map_values(|p: Person| p@);
            let ghost cv = cur@;
            people.push(cur);
            assert(people@.map_values(|p: Person| p@) =~= old_people.push(cv));
        }
        PeopleFile { people }
    }
}

} // verus!
