//! The plain-text dump of the current state: projects, open blockers, open issues, the
//! day's journal and the active project, for reading by people and by tools.
use vstd::prelude::*;
use crate::date::{date_text, day_number, day_number_of, today, year_text, Date};
use crate::issue::{children_of, ChildrenMap, Issue, IssueFile, IssueView};
use crate::project::{Project, ProjectView};
use crate::status::{issue_status_name, status_name, IssueStatus, Priority, Status};
use crate::text::{
    dec, dec_pad, find_at, find_from, join, lemma_chars_deep_view, push_chars, push_dec,
    push_dec_pad, push_joined, push_str, push_string, str_chars, string_from_chars,
};

verus! {

broadcast use vstd::string::group_string_axioms;

// ── Text layout ──────────────────────────────────────────────────────

pub open spec fn spaces(n: nat) -> Seq<char> {
    Seq::new(n, |i: int| ' ')
}

/// `{:<w}`: `s` followed by spaces up to `w` characters.
pub open spec fn pad_right(s: Seq<char>, w: nat) -> Seq<char> {
    if s.len() < w {
        s + spaces((w - s.len()) as nat)
    } else {
        s
    }
}

/// `{:>w}`: spaces up to `w` characters, then `s`.
pub open spec fn pad_left(s: Seq<char>, w: nat) -> Seq<char> {
    if s.len() < w {
        spaces((w - s.len()) as nat) + s
    } else {
        s
    }
}

/// A signed integer as `{}` writes it.
pub open spec fn idec(n: int) -> Seq<char> {
    if n < 0 {
        seq!['-'] + dec((-n) as nat)
    } else {
        dec(n as nat)
    }
}

fn push_spaces(out: &mut Vec<char>, n: usize)
    ensures
        final(out)@ == old(out)@ + spaces(n as nat),
{
    let ghost start = out@;
    let mut i: usize = 0;
    while i < n
        invariant
            i <= n,
            out@ == start + spaces(i as nat),
        decreases n - i,
    {
        out.push(' ');
        i = i + 1;
        assert(out@ =~= start + spaces(i as nat));
    }
}

fn push_padded_right(out: &mut Vec<char>, s: &Vec<char>, w: usize)
    ensures
        final(out)@ == old(out)@ + pad_right(s@, w as nat),
{
    let ghost start = out@;
    push_chars(out, s);
    if s.len() < w {
        push_spaces(out, w - s.len());
    }
    assert(out@ =~= start + pad_right(s@, w as nat));
}

fn push_padded_left(out: &mut Vec<char>, s: &Vec<char>, w: usize)
    ensures
        final(out)@ == old(out)@ + pad_left(s@, w as nat),
{
    let ghost start = out@;
    if s.len() < w {
        push_spaces(out, w - s.len());
    }
    push_chars(out, s);
    assert(out@ =~= start + pad_left(s@, w as nat));
}

fn push_idec(out: &mut Vec<char>, n: i64)
    ensures
        final(out)@ == old(out)@ + idec(n as int),
{
    let ghost start = out@;
    if n < 0 {
        out.push('-');
        let m: u64 = if n == i64::MIN {
            9223372036854775808u64
        } else {
            (-n) as u64
        };
        push_dec(out, m);
        assert(out@ =~= start + idec(n as int));
    } else {
        push_dec(out, n as u64);
    }
}

// ── Cutting at a byte count ──────────────────────────────────────────

/// How many bytes UTF-8 takes for `c`.
pub open spec fn utf8_len(c: char) -> nat {
    if (c as u32) < 0x80 {
        1
    } else if (c as u32) < 0x800 {
        2
    } else if (c as u32) < 0x10000 {
        3
    } else {
        4
    }
}

/// How many bytes UTF-8 takes for `s`.
pub open spec fn byte_len(s: Seq<char>) -> nat
    decreases s.len(),
{
    if s.len() == 0 {
        0
    } else {
        byte_len(s.drop_last()) + utf8_len(s.last())
    }
}

/// How many of the first characters of `s` fit in `n` bytes.
pub open spec fn chars_within(s: Seq<char>, n: int) -> nat
    decreases s.len(),
{
    if s.len() > 0 && utf8_len(s[0]) <= n {
        1 + chars_within(s.drop_first(), n - utf8_len(s[0]))
    } else {
        0
    }
}

/// `&s[..n]` on the bytes of `s` is defined: `s` is at most `n` bytes long, or a
/// character ends exactly at byte `n`.
pub open spec fn cuts_at(s: Seq<char>, n: nat) -> bool {
    byte_len(s) <= n || byte_len(s.take(chars_within(s, n as int) as int)) == n
}

/// The first 40 bytes of a focus text, or all of it where it is shorter.
pub open spec fn focus_cut(s: Seq<char>) -> Seq<char> {
    if byte_len(s) > 40 {
        s.take(chars_within(s, 40) as int)
    } else {
        s
    }
}

fn utf8_len_of(c: char) -> (r: usize)
    ensures
        r == utf8_len(c),
{
    let u = c as u32;
    if u < 0x80 {
        1
    } else if u < 0x800 {
        2
    } else if u < 0x10000 {
        3
    } else {
        4
    }
}

proof fn lemma_byte_len_take(s: Seq<char>, k: int)
    requires
        0 <= k < s.len(),
    ensures
        byte_len(s.take(k + 1)) == byte_len(s.take(k)) + utf8_len(s[k]),
{
    assert(s.take(k + 1).drop_last() =~= s.take(k));
}

proof fn lemma_chars_within_skip(s: Seq<char>, k: int, n: int)
    requires
        0 <= k < s.len(),
        utf8_len(s[k]) <= n,
    ensures
        chars_within(s.skip(k), n) == 1 + chars_within(s.skip(k + 1), n - utf8_len(s[k])),
{
    assert(s.skip(k).drop_first() =~= s.skip(k + 1));
}

proof fn lemma_byte_len_prefix(s: Seq<char>, j: int)
    requires
        0 <= j <= s.len(),
    ensures
        byte_len(s.take(j)) <= byte_len(s),
    decreases s.len() - j,
{
    if j < s.len() {
        lemma_byte_len_prefix(s, j + 1);
        lemma_byte_len_take(s, j);
    } else {
        assert(s.take(j) =~= s);
    }
}

/// How many characters fit in 40 bytes, and their byte count; fewer than all of them fit
/// exactly when the text is longer than 40 bytes.
fn focus_cut_point(s: &Vec<char>) -> (r: (usize, usize))
    ensures
        r.0 == chars_within(s@, 40),
        r.1 == byte_len(s@.take(r.0 as int)),
        r.0 <= s.len(),
        (r.0 < s.len()) == (byte_len(s@) > 40),
{
    let mut k: usize = 0;
    let mut used: usize = 0;
    assert(s@.skip(0) =~= s@);
    while k < s.len() && used + utf8_len_of(s[k]) <= 40
        invariant
            k <= s.len(),
            used <= 40,
            used == byte_len(s@.take(k as int)),
            chars_within(s@, 40) == k + chars_within(s@.skip(k as int), 40 - used),
        decreases s.len() - k,
    {
        proof {
            lemma_byte_len_take(s@, k as int);
            lemma_chars_within_skip(s@, k as int, 40 - used);
        }
        used = used + utf8_len_of(s[k]);
        k = k + 1;
    }
    proof {
        if k < s.len() {
            assert(!(utf8_len(s@.skip(k as int)[0]) <= 40 - used));
            lemma_byte_len_take(s@, k as int);
            lemma_byte_len_prefix(s@, k + 1);
        } else {
            assert(s@.take(k as int) =~= s@);
        }
        assert(chars_within(s@.skip(k as int), 40 - used) == 0);
    }
    (k, used)
}

/// Whether `s[..40]` on bytes is defined for the focus column (a character ends at byte
/// 40, or the text is at most 40 bytes long).
pub fn focus_cuts_cleanly(s: &str) -> (b: bool)
    ensures
        b == cuts_at(s@, 40),
{
    let cs = str_chars(s);
    let (k, used) = focus_cut_point(&cs);
    k == cs.len() || used == 40
}

fn focus_cut_of(s: &Vec<char>) -> (r: Vec<char>)
    ensures
        r@ == focus_cut(s@),
{
    let (k, _used) = focus_cut_point(s);
    proof {
        if k == s.len() {
            assert(s@.take(k as int) =~= s@);
        }
    }
    crate::text::slice(s, 0, k)
}

// ── Ordering projects ────────────────────────────────────────────────

pub open spec fn status_rank(s: Status) -> int {
    match s {
        Status::Active => 0,
        Status::Blocked => 1,
        Status::Pending => 2,
        Status::Parked => 3,
        Status::Done => 4,
    }
}

/// `a <= b` in the order of `str`'s `Ord` (character by character, by code point).
pub open spec fn text_le(a: Seq<char>, b: Seq<char>) -> bool
    decreases a.len(),
{
    if a.len() == 0 {
        true
    } else if b.len() == 0 {
        false
    } else if a[0] != b[0] {
        a[0] < b[0]
    } else {
        text_le(a.drop_first(), b.drop_first())
    }
}

/// Projects are listed by status (active first), then by name.
pub open spec fn project_le(a: ProjectView, b: ProjectView) -> bool {
    status_rank(a.status) < status_rank(b.status) || (status_rank(a.status) == status_rank(
        b.status,
    ) && text_le(a.name, b.name))
}

/// Inserting index `x` into `sorted`: after every index whose project does not come after
/// project `x`.
pub open spec fn insert_by(ps: Seq<ProjectView>, x: int, sorted: Seq<int>) -> Seq<int>
    decreases sorted.len(),
{
    if sorted.len() == 0 {
        seq![x]
    } else if project_le(ps[sorted.last()], ps[x]) {
        sorted.push(x)
    } else {
        insert_by(ps, x, sorted.drop_last()).push(sorted.last())
    }
}

/// The first `n` indices in a stable sort by `project_le`.
pub open spec fn sort_prefix(ps: Seq<ProjectView>, n: int) -> Seq<int>
    decreases n,
{
    if n <= 0 {
        Seq::empty()
    } else {
        insert_by(ps, n - 1, sort_prefix(ps, n - 1))
    }
}

/// The order in which the dump lists projects: a stable sort by status, then by name.
pub open spec fn project_order(ps: Seq<ProjectView>) -> Seq<int> {
    sort_prefix(ps, ps.len() as int)
}

pub(crate) fn text_le_of(a: &Vec<char>, b: &Vec<char>) -> (r: bool)
    ensures
        r == text_le(a@, b@),
{
    let mut i: usize = 0;
    assert(a@.skip(0) =~= a@);
    assert(b@.skip(0) =~= b@);
    while i < a.len() && i < b.len() && a[i] == b[i]
        invariant
            i <= a.len(),
            i <= b.len(),
            text_le(a@, b@) == text_le(a@.skip(i as int), b@.skip(i as int)),
        decreases a.len() - i,
    {
        assert(a@.skip(i as int).drop_first() =~= a@.skip(i + 1));
        assert(b@.skip(i as int).drop_first() =~= b@.skip(i + 1));
        i = i + 1;
    }
    if i == a.len() {
        true
    } else if i == b.len() {
        false
    } else {
        a[i] < b[i]
    }
}

pub open spec fn projects_view(ps: Seq<Project>) -> Seq<ProjectView> {
    ps.map_values(|p: Project| p@)
}

fn status_rank_of(s: Status) -> (r: u8)
    ensures
        r == status_rank(s),
{
    match s {
        Status::Active => 0,
        Status::Blocked => 1,
        Status::Pending => 2,
        Status::Parked => 3,
        Status::Done => 4,
    }
}

fn project_le_of(a: &Project, b: &Project) -> (r: bool)
    ensures
        r == project_le(a@, b@),
{
    let ra = status_rank_of(a.status);
    let rb = status_rank_of(b.status);
    if ra != rb {
        ra < rb
    } else {
        let an = str_chars(a.name.as_str());
        let bn = str_chars(b.name.as_str());
        text_le_of(&an, &bn)
    }
}

proof fn lemma_insert_split(ps: Seq<ProjectView>, x: int, s: Seq<int>, j: int)
    requires
        0 <= j <= s.len(),
        forall|k: int| j <= k < s.len() ==> !project_le(ps[#[trigger] s[k]], ps[x]),
    ensures
        insert_by(ps, x, s) == insert_by(ps, x, s.take(j)) + s.skip(j),
    decreases s.len() - j,
{
    if j == s.len() {
        assert(s.take(j) =~= s);
        assert(s.skip(j) =~= Seq::<int>::empty());
        assert(insert_by(ps, x, s.take(j)) + s.skip(j) =~= insert_by(ps, x, s));
    } else {
        lemma_insert_split(ps, x, s.drop_last(), j);
        assert(s.drop_last().take(j) =~= s.take(j));
        assert(s.skip(j) =~= s.drop_last().skip(j).push(s.last()));
        assert(insert_by(ps, x, s) =~= insert_by(ps, x, s.take(j)) + s.skip(j));
    }
}

/// Indices of `ps` in the order the dump lists them.
fn order_of(ps: &Vec<Project>) -> (r: Vec<usize>)
    ensures
        r@.map_values(|i: usize| i as int) == project_order(projects_view(ps@)),
        forall|k: int| 0 <= k < r.len() ==> #[trigger] r@[k] < ps.len(),
{
    let ghost pv = projects_view(ps@);
    let mut sorted: Vec<usize> = Vec::new();
    let mut i: usize = 0;
    while i < ps.len()
        invariant
            i <= ps.len(),
            pv == projects_view(ps@),
            sorted@.map_values(|v: usize| v as int) == sort_prefix(pv, i as int),
            forall|k: int| 0 <= k < sorted.len() ==> #[trigger] sorted@[k] < i,
        decreases ps.len() - i,
    {
        let ghost s = sorted@.map_values(|v: usize| v as int);
        let mut j = sorted.len();
        while j > 0 && !project_le_of(&ps[sorted[j - 1]], &ps[i])
            invariant
                0 <= j <= sorted.len(),
                i < ps.len(),
                pv == projects_view(ps@),
                s == sorted@.map_values(|v: usize| v as int),
                forall|k: int| 0 <= k < sorted.len() ==> #[trigger] sorted@[k] < i,
                forall|k: int| j <= k < s.len() ==> !project_le(pv[#[trigger] s[k]], pv[i as int]),
            decreases j,
        {
            j = j - 1;
        }
        proof {
            lemma_insert_split(pv, i as int, s, j as int);
            if j > 0 {
                assert(s.take(j as int).last() == s[j - 1]);
                assert(s.take(j as int).drop_last() =~= s.take(j - 1));
            } else {
                assert(s.take(0) =~= Seq::<int>::empty());
            }
        }
        sorted.insert(j, i);
        assert(sorted@.map_values(|v: usize| v as int) =~= s.take(j as int).push(i as int) + s.skip(
            j as int,
        ));
        i = i + 1;
    }
    sorted
}


// ── The day heading ──────────────────────────────────────────────────

/// 0 for Sunday up to 6 for Saturday (1970-01-01 was a Thursday).
pub open spec fn weekday(d: Date) -> int {
    (day_number(d) % 7 + 4) % 7
}

pub open spec fn weekday_abbr(w: int) -> Seq<char> {
    if w == 0 {
        "Sun"@
    } else if w == 1 {
        "Mon"@
    } else if w == 2 {
        "Tue"@
    } else if w == 3 {
        "Wed"@
    } else if w == 4 {
        "Thu"@
    } else if w == 5 {
        "Fri"@
    } else {
        "Sat"@
    }
}

pub open spec fn month_abbr(m: int) -> Seq<char> {
    if m == 1 {
        "Jan"@
    } else if m == 2 {
        "Feb"@
    } else if m == 3 {
        "Mar"@
    } else if m == 4 {
        "Apr"@
    } else if m == 5 {
        "May"@
    } else if m == 6 {
        "Jun"@
    } else if m == 7 {
        "Jul"@
    } else if m == 8 {
        "Aug"@
    } else if m == 9 {
        "Sep"@
    } else if m == 10 {
        "Oct"@
    } else if m == 11 {
        "Nov"@
    } else {
        "Dec"@
    }
}

/// `%a %b %d, %Y`: e.g. `Wed Mar 18, 2026`.
pub open spec fn day_heading(d: Date) -> Seq<char> {
    weekday_abbr(weekday(d)) + " "@ + month_abbr(d.month as int) + " "@ + dec_pad(d.day as nat, 2)
        + ", "@ + year_text(d.year as int)
}

fn weekday_abbr_of(w: u64) -> (r: &'static str)
    ensures
        r@ == weekday_abbr(w as int),
{
    if w == 0 {
        "Sun"
    } else if w == 1 {
        "Mon"
    } else if w == 2 {
        "Tue"
    } else if w == 3 {
        "Wed"
    } else if w == 4 {
        "Thu"
    } else if w == 5 {
        "Fri"
    } else {
        "Sat"
    }
}

fn month_abbr_of(m: u32) -> (r: &'static str)
    ensures
        r@ == month_abbr(m as int),
{
    if m == 1 {
        "Jan"
    } else if m == 2 {
        "Feb"
    } else if m == 3 {
        "Mar"
    } else if m == 4 {
        "Apr"
    } else if m == 5 {
        "May"
    } else if m == 6 {
        "Jun"
    } else if m == 7 {
        "Jul"
    } else if m == 8 {
        "Aug"
    } else if m == 9 {
        "Sep"
    } else if m == 10 {
        "Oct"
    } else if m == 11 {
        "Nov"
    } else {
        "Dec"
    }
}

fn push_day_heading(out: &mut Vec<char>, d: Date)
    requires
        d.wf(),
    ensures
        final(out)@ == old(out)@ + day_heading(d),
{
    let ghost start = out@;
    let dn = day_number_of(d);
    let shifted: u64 = (dn + 700_000_000) as u64;
    let w: u64 = (shifted % 7 + 4) % 7;
    proof {
        let x = day_number(d);
        assert(w == (x % 7 + 4) % 7) by (nonlinear_arith)
            requires
                shifted == x + 700_000_000,
                w == (shifted % 7 + 4) % 7,
                shifted >= 0,
        ;
    }
    push_str(out, weekday_abbr_of(w));
    push_str(out, " ");
    push_str(out, month_abbr_of(d.month));
    push_str(out, " ");
    push_dec_pad(out, d.day as u64, 2);
    push_str(out, ", ");
    crate::date::push_year(out, d.year);
    assert(out@ =~= start + day_heading(d));
}

// ── Sections ─────────────────────────────────────────────────────────

/// What the dump reads of one journal entry.
#[derive(Debug, Clone)]
pub struct JournalEntry {
    pub time: String,
    pub entry_type: String,
    pub project: String,
}

pub struct JournalEntryView {
    pub time: Seq<char>,
    pub entry_type: Seq<char>,
    pub project: Seq<char>,
}

impl View for JournalEntry {
    type V = JournalEntryView;

    open spec fn view(&self) -> JournalEntryView {
        JournalEntryView {
            time: self.time@,
            entry_type: self.entry_type@,
            project: self.project@,
        }
    }
}

pub open spec fn priority_short(p: Priority) -> Seq<char> {
    match p {
        Priority::High => "high"@,
        Priority::Medium => "med"@,
        Priority::Low => "low"@,
    }
}

pub open spec fn table_header() -> Seq<char> {
    "  "@ + pad_right("Project"@, 20) + " "@ + pad_right("Status"@, 10) + " "@ + pad_right(
        "Pri"@,
        6,
    ) + " Current Focus"@
}

pub open spec fn project_row(p: ProjectView) -> Seq<char> {
    "  "@ + pad_right(p.name, 20) + " "@ + pad_right(status_name(p.status), 10) + " "@
        + pad_right(priority_short(p.priority), 6) + " "@ + focus_cut(p.current_focus)
}

/// The projects in listing order.
pub open spec fn sorted_projects(ps: Seq<ProjectView>) -> Seq<ProjectView> {
    project_order(ps).map_values(|i: int| ps[i])
}

pub open spec fn projects_section(sp: Seq<ProjectView>) -> Seq<Seq<char>> {
    seq!["ACTIVE PROJECTS ("@ + dec(sp.len()) + ")"@] + (if sp.len() > 0 {
        seq![table_header()] + sp.map_values(|p: ProjectView| project_row(p))
    } else {
        seq!["  No projects yet"@]
    }) + seq![Seq::<char>::empty()]
}

pub open spec fn blocker_item(p: ProjectView, b: crate::project::BlockerView, today: Date) -> Seq<char> {
    "  "@ + p.name + ": "@ + b.description + (match b.person {
        Some(x) => " "@ + x,
        None => Seq::empty(),
    }) + (match b.since {
        Some(s) => " ("@ + idec(day_number(today) - day_number(s)) + " days)"@,
        None => Seq::empty(),
    })
}

/// The open blockers of one project, as dump lines.
pub open spec fn project_blocker_items(
    p: ProjectView,
    bs: Seq<crate::project::BlockerView>,
    today: Date,
) -> Seq<Seq<char>>
    decreases bs.len(),
{
    if bs.len() == 0 {
        Seq::empty()
    } else if bs.last().resolved {
        project_blocker_items(p, bs.drop_last(), today)
    } else {
        project_blocker_items(p, bs.drop_last(), today).push(blocker_item(p, bs.last(), today))
    }
}

pub open spec fn blocker_items(sp: Seq<ProjectView>, today: Date) -> Seq<Seq<char>>
    decreases sp.len(),
{
    if sp.len() == 0 {
        Seq::empty()
    } else {
        blocker_items(sp.drop_last(), today) + project_blocker_items(
            sp.last(),
            sp.last().blockers,
            today,
        )
    }
}

pub open spec fn blockers_section(sp: Seq<ProjectView>, today: Date) -> Seq<Seq<char>> {
    let items = blocker_items(sp, today);
    seq!["BLOCKERS ("@ + dec(items.len()) + ")"@] + (if items.len() > 0 {
        items
    } else {
        seq!["  No open blockers"@]
    }) + seq![Seq::<char>::empty()]
}

/// Every blocker date of every project is a real date.
pub open spec fn blocker_dates_wf(ps: Seq<ProjectView>) -> bool {
    forall|i: int, j: int|
        0 <= i < ps.len() && 0 <= j < ps[i].blockers.len() ==> match #[trigger] ps[i].blockers[j].since {
            Some(d) => d.wf(),
            None => true,
        }
}

pub open spec fn focus_ok(ps: Seq<ProjectView>) -> bool {
    forall|i: int| 0 <= i < ps.len() ==> #[trigger] cuts_at(ps[i].current_focus, 40)
}

fn push_line(ls: &mut Vec<Vec<char>>, l: Vec<char>)
    ensures
        final(ls).deep_view() == old(ls).deep_view().push(l@),
{
    proof {
        lemma_chars_deep_view(&l);
    }
    let ghost before = ls.deep_view();
    ls.push(l);
    assert(ls.deep_view() =~= before.push(l@));
}

fn lit_line(s: &str) -> (r: Vec<char>)
    ensures
        r@ == s@,
{
    str_chars(s)
}

fn project_row_of(p: &Project) -> (r: Vec<char>)
    requires
        cuts_at(p@.current_focus, 40),
    ensures
        r@ == project_row(p@),
{
    let mut l: Vec<char> = Vec::new();
    push_str(&mut l, "  ");
    push_padded_right(&mut l, &str_chars(p.name.as_str()), 20);
    push_str(&mut l, " ");
    let st = p.status.to_string();
    push_padded_right(&mut l, &str_chars(st.as_str()), 10);
    push_str(&mut l, " ");
    let pri = match p.priority {
        Priority::High => "high",
        Priority::Medium => "med",
        Priority::Low => "low",
    };
    push_padded_right(&mut l, &str_chars(pri), 6);
    push_str(&mut l, " ");
    let fc = str_chars(p.current_focus.as_str());
    let cut = focus_cut_of(&fc);
    push_chars(&mut l, &cut);
    l
}

fn projects_section_of(ls: &mut Vec<Vec<char>>, ps: &Vec<Project>, order: &Vec<usize>)
    requires
        forall|k: int| 0 <= k < order.len() ==> #[trigger] order@[k] < ps.len(),
        focus_ok(projects_view(ps@)),
    ensures
        final(ls).deep_view() == old(ls).deep_view() + projects_section(
            order@.map_values(|i: usize| projects_view(ps@)[i as int]),
        ),
{
    let ghost start = ls.deep_view();
    let ghost sp = order@.map_values(|i: usize| projects_view(ps@)[i as int]);
    let mut h: Vec<char> = Vec::new();
    push_str(&mut h, "ACTIVE PROJECTS (");
    push_dec(&mut h, order.len() as u64);
    push_str(&mut h, ")");
    push_line(ls, h);
    let ghost head = ls.deep_view();
    if order.len() > 0 {
        let mut t: Vec<char> = Vec::new();
        push_str(&mut t, "  ");
        push_padded_right(&mut t, &str_chars("Project"), 20);
        push_str(&mut t, " ");
        push_padded_right(&mut t, &str_chars("Status"), 10);
        push_str(&mut t, " ");
        push_padded_right(&mut t, &str_chars("Pri"), 6);
        push_str(&mut t, " Current Focus");
        assert(t@ =~= table_header());
        push_line(ls, t);
        let ghost mid = ls.deep_view();
        let mut k: usize = 0;
        while k < order.len()
            invariant
                k <= order.len(),
                forall|m: int| 0 <= m < order.len() ==> #[trigger] order@[m] < ps.len(),
                focus_ok(projects_view(ps@)),
                sp == order@.map_values(|i: usize| projects_view(ps@)[i as int]),
                ls.deep_view() == mid + sp.subrange(0, k as int).map_values(
                    |p: ProjectView| project_row(p),
                ),
            decreases order.len() - k,
        {
            let idx = order[k];
            assert(cuts_at(projects_view(ps@)[idx as int].current_focus, 40));
            let row = project_row_of(&ps[idx]);
            push_line(ls, row);
            k = k + 1;
            assert(ls.deep_view() =~= mid + sp.subrange(0, k as int).map_values(
                |p: ProjectView| project_row(p),
            ));
        }
        assert(sp.subrange(0, k as int) =~= sp);
    } else {
        push_line(ls, lit_line("  No projects yet"));
    }
    push_line(ls, Vec::new());
    assert(ls.deep_view() =~= start + projects_section(sp));
}


fn blocker_item_of(p: &Project, b: &crate::project::Blocker, today: Date) -> (r: Vec<char>)
    requires
        today.wf(),
        b.since matches Some(d) ==> d.wf(),
    ensures
        r@ == blocker_item(p@, b@, today),
{
    let mut l: Vec<char> = Vec::new();
    push_str(&mut l, "  ");
    push_string(&mut l, &p.name);
    push_str(&mut l, ": ");
    push_string(&mut l, &b.description);
    let ghost mid = l@;
    match &b.person {
        Some(x) => {
            push_str(&mut l, " ");
            push_string(&mut l, x);
        },
        None => {},
    }
    let ghost mid2 = l@;
    assert(mid2 =~= mid + match b@.person {
        Some(x) => " "@ + x,
        None => Seq::<char>::empty(),
    });
    match b.since {
        Some(sd) => {
            push_str(&mut l, " (");
            let days = crate::date::days_between(today, sd);
            push_idec(&mut l, days);
            push_str(&mut l, " days)");
        },
        None => {},
    }
    assert(l@ =~= blocker_item(p@, b@, today));
    l
}

fn blockers_section_of(
    ls: &mut Vec<Vec<char>>,
    ps: &Vec<Project>,
    order: &Vec<usize>,
    today: Date,
)
    requires
        forall|k: int| 0 <= k < order.len() ==> #[trigger] order@[k] < ps.len(),
        blocker_dates_wf(projects_view(ps@)),
        today.wf(),
    ensures
        final(ls).deep_view() == old(ls).deep_view() + blockers_section(
            order@.map_values(|i: usize| projects_view(ps@)[i as int]),
            today,
        ),
{
    let ghost start = ls.deep_view();
    let ghost sp = order@.map_values(|i: usize| projects_view(ps@)[i as int]);
    let mut items: Vec<Vec<char>> = Vec::new();
    let mut k: usize = 0;
    while k < order.len()
        invariant
            k <= order.len(),
            forall|m: int| 0 <= m < order.len() ==> #[trigger] order@[m] < ps.len(),
            blocker_dates_wf(projects_view(ps@)),
            today.wf(),
            sp == order@.map_values(|i: usize| projects_view(ps@)[i as int]),
            items.deep_view() == blocker_items(sp.subrange(0, k as int), today),
        decreases order.len() - k,
    {
        assert(sp.subrange(0, k + 1).drop_last() =~= sp.subrange(0, k as int));
        let p = &ps[order[k]];
        let ghost pv = p@;
        assert(pv == sp[k as int]);
        let ghost base = items.deep_view();
        let mut j: usize = 0;
        while j < p.blockers.len()
            invariant
                j <= p.blockers.len(),
                pv == p@,
                today.wf(),
                forall|m: int| 0 <= m < p.blockers.len() ==> match #[trigger] p@.blockers[m].since {
                    Some(d) => d.wf(),
                    None => true,
                },
                items.deep_view() == base + project_blocker_items(
                    pv,
                    pv.blockers.subrange(0, j as int),
                    today,
                ),
            decreases p.blockers.len() - j,
        {
            assert(pv.blockers.subrange(0, j + 1).drop_last() =~= pv.blockers.subrange(0, j as int));
            let b = &p.blockers[j];
            assert(pv.blockers[j as int] == b@);
            if !b.resolved {
                assert(match p@.blockers[j as int].since {
                    Some(d) => d.wf(),
                    None => true,
                });
                let line = blocker_item_of(p, b, today);
                push_line(&mut items, line);
            }
            j = j + 1;
            assert(items.deep_view() =~= base + project_blocker_items(
                pv,
                pv.blockers.subrange(0, j as int),
                today,
            ));
        }
        assert(pv.blockers.subrange(0, j as int) =~= pv.blockers);
        k = k + 1;
        assert(items.deep_view() =~= blocker_items(sp.subrange(0, k as int), today));
    }
    assert(sp.subrange(0, k as int) =~= sp);
    let mut h: Vec<char> = Vec::new();
    push_str(&mut h, "BLOCKERS (");
    push_dec(&mut h, items.len() as u64);
    push_str(&mut h, ")");
    push_line(ls, h);
    if items.len() > 0 {
        let mut m: usize = 0;
        let ghost mid = ls.deep_view();
        while m < items.len()
            invariant
                m <= items.len(),
                ls.deep_view() == mid + items.deep_view().subrange(0, m as int),
            decreases items.len() - m,
        {
            proof {
                lemma_chars_deep_view(&items[m as int]);
            }
            push_line(ls, crate::text::slice(&items[m], 0, items[m].len()));
            assert(items[m as int]@.subrange(0, items[m as int]@.len() as int) =~= items[m as int]@);
            m = m + 1;
            assert(ls.deep_view() =~= mid + items.deep_view().subrange(0, m as int));
        }
        assert(items.deep_view().subrange(0, m as int) =~= items.deep_view());
    } else {
        push_line(ls, lit_line("  No open blockers"));
    }
    push_line(ls, Vec::new());
    assert(ls.deep_view() =~= start + blockers_section(sp, today));
}


// ── Issues ───────────────────────────────────────────────────────────

pub open spec fn open_issues(is: Seq<IssueView>) -> Seq<IssueView>
    decreases is.len(),
{
    if is.len() == 0 {
        Seq::empty()
    } else if is.last().status == IssueStatus::Done {
        open_issues(is.drop_last())
    } else {
        open_issues(is.drop_last()).push(is.last())
    }
}

pub open spec fn active_count(is: Seq<IssueView>) -> nat
    decreases is.len(),
{
    if is.len() == 0 {
        0
    } else if is.last().status == IssueStatus::Active {
        active_count(is.drop_last()) + 1
    } else {
        active_count(is.drop_last())
    }
}

/// `#{:<3} [{:<7}] title` after an indent.
pub open spec fn issue_row(indent: Seq<char>, i: IssueView) -> Seq<char> {
    indent + "#"@ + pad_right(dec(i.id as nat), 3) + " ["@ + pad_right(
        issue_status_name(i.status),
        7,
    ) + "] "@ + i.title
}

/// The rows of the open children, while fewer than ten rows are shown; and how many are
/// shown after them.
pub open spec fn child_rows(cs: Seq<IssueView>, shown: nat) -> (Seq<Seq<char>>, nat)
    decreases cs.len(),
{
    if cs.len() == 0 {
        (Seq::empty(), shown)
    } else if cs[0].status == IssueStatus::Done || shown >= 10 {
        child_rows(cs.drop_first(), shown)
    } else {
        let rest = child_rows(cs.drop_first(), shown + 1);
        (seq![issue_row("      "@, cs[0])] + rest.0, rest.1)
    }
}

/// The rows of the open top-level issues, each followed by its open children, up to ten
/// rows in all.
pub open spec fn tree_rows(all: Seq<IssueView>, tops: Seq<IssueView>, shown: nat) -> (Seq<
    Seq<char>,
>, nat)
    decreases tops.len(),
{
    if tops.len() == 0 {
        (Seq::empty(), shown)
    } else if tops[0].status == IssueStatus::Done || shown >= 10 {
        tree_rows(all, tops.drop_first(), shown)
    } else {
        let c = child_rows(children_of(all, Some(tops[0].id)), shown + 1);
        let rest = tree_rows(all, tops.drop_first(), c.1);
        (seq![issue_row("    "@, tops[0])] + c.0 + rest.0, rest.1)
    }
}

pub open spec fn issue_summary(p: ProjectView, f: Seq<IssueView>) -> Seq<char> {
    let o = open_issues(f);
    "  "@ + p.name + ": "@ + dec(o.len()) + " open"@ + if active_count(o) > 0 {
        ", "@ + dec(active_count(o)) + " active"@
    } else {
        Seq::<char>::empty()
    }
}

pub open spec fn project_issue_lines(p: ProjectView, f: Seq<IssueView>) -> Seq<Seq<char>> {
    seq![issue_summary(p, f)] + tree_rows(f, children_of(f, None), 0).0
}

/// The issue lines of all projects, the number of open issues, and the number of
/// projects that have any.
pub open spec fn issues_block(sp: Seq<ProjectView>, sf: Seq<Seq<IssueView>>) -> (Seq<Seq<char>>, nat, nat)
    decreases sp.len(),
{
    if sp.len() == 0 {
        (Seq::empty(), 0, 0)
    } else {
        let prev = issues_block(sp.drop_last(), sf.drop_last());
        let f = sf.last();
        if open_issues(f).len() == 0 {
            prev
        } else {
            (prev.0 + project_issue_lines(sp.last(), f), prev.1 + open_issues(f).len(), prev.2 + 1)
        }
    }
}

pub open spec fn issues_section(sp: Seq<ProjectView>, sf: Seq<Seq<IssueView>>) -> Seq<Seq<char>> {
    let b = issues_block(sp, sf);
    (if b.0.len() > 0 {
        seq![
            "ISSUES ("@ + dec(b.1) + " open across "@ + dec(b.2) + " project"@ + (if b.2 == 1 {
                Seq::<char>::empty()
            } else {
                "s"@
            }) + ")"@,
        ] + b.0
    } else {
        seq!["ISSUES (0)"@, "  No open issues"@]
    }) + seq![Seq::<char>::empty()]
}

fn issue_row_of(indent: &str, i: &Issue) -> (r: Vec<char>)
    ensures
        r@ == issue_row(indent@, i@),
{
    let mut l: Vec<char> = Vec::new();
    push_str(&mut l, indent);
    push_str(&mut l, "#");
    let mut idt: Vec<char> = Vec::new();
    push_dec(&mut idt, i.id as u64);
    push_padded_right(&mut l, &idt, 3);
    push_str(&mut l, " [");
    let st = i.status.to_string();
    push_padded_right(&mut l, &str_chars(st.as_str()), 7);
    push_str(&mut l, "] ");
    push_string(&mut l, &i.title);
    l
}

pub open spec fn refs_view(v: Seq<&Issue>) -> Seq<IssueView> {
    v.map_values(|i: &Issue| i@)
}

fn child_rows_of(cs: &Vec<&Issue>, shown0: usize, rows: &mut Vec<Vec<char>>) -> (r: usize)
    requires
        shown0 <= 10,
    ensures
        r <= 10,
        final(rows).deep_view() == old(rows).deep_view() + child_rows(refs_view(cs@), shown0 as nat).0,
        r == child_rows(refs_view(cs@), shown0 as nat).1,
{
    let ghost cv = refs_view(cs@);
    let ghost start = rows.deep_view();
    let ghost mut acc: Seq<Seq<char>> = Seq::empty();
    let mut shown = shown0;
    let mut j: usize = 0;
    assert(cv.skip(0) =~= cv);
    assert(rows.deep_view() =~= start + acc);
    while j < cs.len()
        invariant
            j <= cs.len(),
            shown <= 10,
            cv == refs_view(cs@),
            rows.deep_view() == start + acc,
            child_rows(cv, shown0 as nat).0 == acc + child_rows(cv.skip(j as int), shown as nat).0,
            child_rows(cv, shown0 as nat).1 == child_rows(cv.skip(j as int), shown as nat).1,
        decreases cs.len() - j,
    {
        assert(cv.skip(j as int).drop_first() =~= cv.skip(j + 1));
        assert(cv.skip(j as int)[0] == cs[j as int]@);
        let c = cs[j];
        if !(c.status == IssueStatus::Done || shown >= 10) {
            let row = issue_row_of("      ", c);
            push_line(rows, row);
            proof {
                let a0 = acc;
                acc = a0.push(row@);
                assert(acc + child_rows(cv.skip(j + 1), (shown + 1) as nat).0 =~= a0 + (seq![row@]
                    + child_rows(cv.skip(j + 1), (shown + 1) as nat).0));
            }
            assert(rows.deep_view() =~= start + acc);
            shown = shown + 1;
        }
        j = j + 1;
    }
    assert(acc + Seq::<Seq<char>>::empty() =~= acc);
    shown
}

fn tree_rows_of(cm: &ChildrenMap, tops: &Vec<&Issue>, rows: &mut Vec<Vec<char>>)
    ensures
        final(rows).deep_view() == old(rows).deep_view() + tree_rows(
            cm.issues_view(),
            refs_view(tops@),
            0,
        ).0,
{
    let ghost tv = refs_view(tops@);
    let ghost all = cm.issues_view();
    let ghost start = rows.deep_view();
    let ghost mut acc: Seq<Seq<char>> = Seq::empty();
    let mut shown: usize = 0;
    let mut i: usize = 0;
    assert(tv.skip(0) =~= tv);
    assert(rows.deep_view() =~= start + acc);
    while i < tops.len()
        invariant
            i <= tops.len(),
            shown <= 10,
            tv == refs_view(tops@),
            all == cm.issues_view(),
            rows.deep_view() == start + acc,
            tree_rows(all, tv, 0).0 == acc + tree_rows(all, tv.skip(i as int), shown as nat).0,
        decreases tops.len() - i,
    {
        assert(tv.skip(i as int).drop_first() =~= tv.skip(i + 1));
        assert(tv.skip(i as int)[0] == tops[i as int]@);
        let t = tops[i];
        if !(t.status == IssueStatus::Done || shown >= 10) {
            let ghost s0 = shown;
            let row = issue_row_of("    ", t);
            push_line(rows, row);
            let ghost kv = children_of(all, Some(t.id));
            let kids = cm.get(&Some(t.id));
            match kids {
                Some(ks) => {
                    shown = child_rows_of(&ks, shown + 1, rows);
                },
                None => {
                    assert(kv =~= Seq::<IssueView>::empty());
                    shown = shown + 1;
                },
            }
            proof {
                let c = child_rows(kv, (s0 + 1) as nat);
                let a0 = acc;
                acc = a0 + seq![row@] + c.0;
                assert(shown == c.1);
                assert(acc + tree_rows(all, tv.skip(i + 1), c.1).0 =~= a0 + (seq![row@] + c.0
                    + tree_rows(all, tv.skip(i + 1), c.1).0));
            }
            assert(rows.deep_view() =~= start + acc);
        }
        i = i + 1;
    }
    assert(acc + Seq::<Seq<char>>::empty() =~= acc);
}


/// Each prefix of the projects adds up no more open issues than the whole.
proof fn lemma_block_total_grows(sp: Seq<ProjectView>, sf: Seq<Seq<IssueView>>, k: int)
    requires
        0 <= k <= sp.len(),
        sp.len() == sf.len(),
    ensures
        issues_block(sp.subrange(0, k), sf.subrange(0, k)).1 <= issues_block(sp, sf).1,
    decreases sp.len() - k,
{
    if k < sp.len() {
        lemma_block_total_grows(sp, sf, k + 1);
        assert(sp.subrange(0, k + 1).drop_last() =~= sp.subrange(0, k));
        assert(sf.subrange(0, k + 1).drop_last() =~= sf.subrange(0, k));
    } else {
        assert(sp.subrange(0, k) =~= sp);
        assert(sf.subrange(0, k) =~= sf);
    }
}

fn count_open(f: &IssueFile) -> (r: (u64, u64))
    ensures
        r.0 == open_issues(f@.issues).len(),
        r.1 == active_count(open_issues(f@.issues)),
        r.0 <= f.issues.len(),
{
    let ghost iv = f@.issues;
    let mut o: u64 = 0;
    let mut a: u64 = 0;
    let mut i: usize = 0;
    while i < f.issues.len()
        invariant
            i <= f.issues.len(),
            iv == f@.issues,
            o == open_issues(iv.subrange(0, i as int)).len(),
            a == active_count(open_issues(iv.subrange(0, i as int))),
            o <= i,
            a <= o,
        decreases f.issues.len() - i,
    {
        let ghost pre = iv.subrange(0, i as int);
        let ghost nxt = iv.subrange(0, i + 1);
        assert(nxt.drop_last() =~= pre);
        assert(nxt.last() == f.issues[i as int]@);
        let st = f.issues[i].status;
        if st != IssueStatus::Done {
            o = o + 1;
            if st == IssueStatus::Active {
                a = a + 1;
            }
            assert(open_issues(nxt).drop_last() =~= open_issues(pre));
        }
        i = i + 1;
    }
    assert(iv.subrange(0, i as int) =~= iv);
    (o, a)
}

fn issues_section_of(
    ls: &mut Vec<Vec<char>>,
    ps: &Vec<Project>,
    order: &Vec<usize>,
    files: &Vec<IssueFile>,
)
    requires
        forall|k: int| 0 <= k < order.len() ==> #[trigger] order@[k] < ps.len(),
        files.len() == ps.len(),
        order.len() == ps.len(),
        issues_block(
            order@.map_values(|i: usize| projects_view(ps@)[i as int]),
            order@.map_values(|i: usize| files@[i as int]@.issues),
        ).1 <= usize::MAX,
    ensures
        final(ls).deep_view() == old(ls).deep_view() + issues_section(
            order@.map_values(|i: usize| projects_view(ps@)[i as int]),
            order@.map_values(|i: usize| files@[i as int]@.issues),
        ),
{
    let ghost start = ls.deep_view();
    let ghost sp = order@.map_values(|i: usize| projects_view(ps@)[i as int]);
    let ghost sf = order@.map_values(|i: usize| files@[i as int]@.issues);
    let mut lines: Vec<Vec<char>> = Vec::new();
    let mut all_open: usize = 0;
    let mut with: u64 = 0;
    let mut k: usize = 0;
    while k < order.len()
        invariant
            k <= order.len() == ps.len() == files.len(),
            forall|m: int| 0 <= m < order.len() ==> #[trigger] order@[m] < ps.len(),
            issues_block(sp, sf).1 <= usize::MAX,
            sp == order@.map_values(|i: usize| projects_view(ps@)[i as int]),
            sf == order@.map_values(|i: usize| files@[i as int]@.issues),
            lines.deep_view() == issues_block(sp.subrange(0, k as int), sf.subrange(0, k as int)).0,
            all_open == issues_block(sp.subrange(0, k as int), sf.subrange(0, k as int)).1,
            with == issues_block(sp.subrange(0, k as int), sf.subrange(0, k as int)).2,
            with <= k,
        decreases order.len() - k,
    {
        assert(sp.subrange(0, k + 1).drop_last() =~= sp.subrange(0, k as int));
        assert(sf.subrange(0, k + 1).drop_last() =~= sf.subrange(0, k as int));
        let idx = order[k];
        let p = &ps[idx];
        let f = &files[idx];
        let (o, a) = count_open(f);
        proof {
            lemma_block_total_grows(sp, sf, k + 1);
            assert(sp.subrange(0, k + 1).drop_last() =~= sp.subrange(0, k as int));
        }
        if o > 0 {
            let mut h: Vec<char> = Vec::new();
            push_str(&mut h, "  ");
            push_string(&mut h, &p.name);
            push_str(&mut h, ": ");
            push_dec(&mut h, o);
            push_str(&mut h, " open");
            if a > 0 {
                push_str(&mut h, ", ");
                push_dec(&mut h, a);
                push_str(&mut h, " active");
            }
            assert(h@ =~= issue_summary(p@, f@.issues));
            let ghost before = lines.deep_view();
            push_line(&mut lines, h);
            let cm = f.children_map();
            match cm.get(&None) {
                Some(tops) => {
                    tree_rows_of(&cm, &tops, &mut lines);
                },
                None => {
                    let tops: Vec<&Issue> = Vec::new();
                    assert(refs_view(tops@) =~= children_of(f@.issues, None));
                    tree_rows_of(&cm, &tops, &mut lines);
                },
            }
            assert(lines.deep_view() =~= before + project_issue_lines(p@, f@.issues));
            all_open = all_open + o as usize;
            with = with + 1;
        }
        k = k + 1;
    }
    assert(sp.subrange(0, k as int) =~= sp);
    assert(sf.subrange(0, k as int) =~= sf);
    if lines.len() > 0 {
        let mut h: Vec<char> = Vec::new();
        push_str(&mut h, "ISSUES (");
        push_dec(&mut h, all_open as u64);
        push_str(&mut h, " open across ");
        push_dec(&mut h, with);
        push_str(&mut h, " project");
        if with != 1 {
            push_str(&mut h, "s");
        }
        push_str(&mut h, ")");
        push_line(ls, h);
        let ghost mid = ls.deep_view();
        let mut m: usize = 0;
        while m < lines.len()
            invariant
                m <= lines.len(),
                ls.deep_view() == mid + lines.deep_view().subrange(0, m as int),
            decreases lines.len() - m,
        {
            proof {
                lemma_chars_deep_view(&lines[m as int]);
            }
            push_line(ls, crate::text::slice(&lines[m], 0, lines[m].len()));
            assert(lines[m as int]@.subrange(0, lines[m as int]@.len() as int) =~= lines[m as int]@);
            m = m + 1;
            assert(ls.deep_view() =~= mid + lines.deep_view().subrange(0, m as int));
        }
        assert(lines.deep_view().subrange(0, m as int) =~= lines.deep_view());
    } else {
        push_line(ls, lit_line("ISSUES (0)"));
        push_line(ls, lit_line("  No open issues"));
    }
    push_line(ls, Vec::new());
    assert(ls.deep_view() =~= start + issues_section(sp, sf));
}

// ── Journal and active project ───────────────────────────────────────

pub open spec fn entry_line(e: JournalEntryView) -> Seq<char> {
    if e.entry_type == "Switched"@ {
        "  "@ + e.time + "  Switched -> "@ + e.project
    } else if e.entry_type == "Done"@ {
        "  "@ + e.time + "  Done for day"@
    } else {
        "  "@ + e.time + "  "@ + e.entry_type + " "@ + e.project
    }
}

pub open spec fn journal_section(es: Seq<JournalEntryView>) -> Seq<Seq<char>> {
    seq!["TODAY'S LOG"@] + (if es.len() > 0 {
        es.map_values(|e: JournalEntryView| entry_line(e))
    } else {
        seq!["  No entries yet today"@]
    }) + seq![Seq::<char>::empty()]
}

/// `p` occurs in `s`.
pub open spec fn contains(s: Seq<char>, p: Seq<char>) -> bool {
    find_from(s, 0, p) is Some
}

/// ` (since TIME)` for the latest entry that started or switched to `name`.
pub open spec fn last_start(es: Seq<JournalEntryView>, name: Seq<char>) -> Seq<char>
    decreases es.len(),
{
    if es.len() == 0 {
        Seq::empty()
    } else if (es.last().entry_type == "Started"@ || es.last().entry_type == "Switched"@)
        && contains(es.last().project, name) {
        " (since "@ + es.last().time + ")"@
    } else {
        last_start(es.drop_last(), name)
    }
}

/// The active project's line: its name (the slug where no project has it) and since when.
pub open spec fn active_line(
    active: Option<Seq<char>>,
    active_name: Option<Seq<char>>,
    es: Seq<JournalEntryView>,
) -> Seq<char> {
    match active {
        Some(slug) => {
            let name = match active_name {
                Some(n) => n,
                None => slug,
            };
            "ACTIVE: "@ + name + last_start(es, name)
        },
        None => "ACTIVE: none"@,
    }
}

pub open spec fn entries_view(es: Seq<JournalEntry>) -> Seq<JournalEntryView> {
    es.map_values(|e: JournalEntry| e@)
}

fn lit_eq(s: &String, lit: &str) -> (b: bool)
    ensures
        b == (s@ == lit@),
{
    crate::yaml::eq_chars(&str_chars(s.as_str()), &str_chars(lit))
}

fn entry_line_of(e: &JournalEntry) -> (r: Vec<char>)
    ensures
        r@ == entry_line(e@),
{
    let mut l: Vec<char> = Vec::new();
    push_str(&mut l, "  ");
    push_string(&mut l, &e.time);
    if lit_eq(&e.entry_type, "Switched") {
        push_str(&mut l, "  Switched -> ");
        push_string(&mut l, &e.project);
    } else if lit_eq(&e.entry_type, "Done") {
        push_str(&mut l, "  Done for day");
    } else {
        push_str(&mut l, "  ");
        push_string(&mut l, &e.entry_type);
        push_str(&mut l, " ");
        push_string(&mut l, &e.project);
    }
    l
}

fn journal_section_of(ls: &mut Vec<Vec<char>>, es: &Vec<JournalEntry>)
    ensures
        final(ls).deep_view() == old(ls).deep_view() + journal_section(entries_view(es@)),
{
    let ghost start = ls.deep_view();
    let ghost ev = entries_view(es@);
    push_line(ls, lit_line("TODAY'S LOG"));
    if es.len() > 0 {
        let ghost mid = ls.deep_view();
        let mut i: usize = 0;
        while i < es.len()
            invariant
                i <= es.len(),
                ev == entries_view(es@),
                ls.deep_view() == mid + ev.subrange(0, i as int).map_values(
                    |e: JournalEntryView| entry_line(e),
                ),
            decreases es.len() - i,
        {
            push_line(ls, entry_line_of(&es[i]));
            i = i + 1;
            assert(ls.deep_view() =~= mid + ev.subrange(0, i as int).map_values(
                |e: JournalEntryView| entry_line(e),
            ));
        }
        assert(ev.subrange(0, i as int) =~= ev);
    } else {
        push_line(ls, lit_line("  No entries yet today"));
    }
    push_line(ls, Vec::new());
    assert(ls.deep_view() =~= start + journal_section(ev));
}

fn active_line_of(active: &Option<String>, active_name: &Option<String>, es: &Vec<JournalEntry>) -> (r: Vec<char>)
    ensures
        r@ == active_line(
            match active {
                Some(s) => Some(s@),
                None => None,
            },
            match active_name {
                Some(s) => Some(s@),
                None => None,
            },
            entries_view(es@),
        ),
{
    let mut l: Vec<char> = Vec::new();
    match active {
        None => {
            push_str(&mut l, "ACTIVE: none");
            assert(l@ =~= "ACTIVE: none"@);
            l
        },
        Some(slug) => {
            let name = match active_name {
                Some(n) => str_chars(n.as_str()),
                None => str_chars(slug.as_str()),
            };
            push_str(&mut l, "ACTIVE: ");
            push_chars(&mut l, &name);
            let ghost head = l@;
            assert(head =~= "ACTIVE: "@ + name@);
            let ghost ev = entries_view(es@);
            assert(ev.subrange(0, es.len() as int) =~= ev);
            let mut i = es.len();
            while i > 0
                invariant
                    i <= es.len(),
                    ev == entries_view(es@),
                    l@ == head,
                    active matches Some(x) && x@ == slug@,
                    head == "ACTIVE: "@ + name@,
                    name@ == match active_name {
                        Some(n) => n@,
                        None => slug@,
                    },
                    last_start(ev, name@) == last_start(ev.subrange(0, i as int), name@),
                decreases i,
            {
                let e = &es[i - 1];
                assert(ev.subrange(0, i as int).last() == e@);
                assert(ev.subrange(0, i as int).drop_last() =~= ev.subrange(0, i - 1));
                let started = lit_eq(&e.entry_type, "Started") || lit_eq(&e.entry_type, "Switched");
                if started {
                    let pc = str_chars(e.project.as_str());
                    let found = find_at(&pc, 0, &name);
                    if found.is_some() {
                        assert(contains(e@.project, name@));
                        assert(last_start(ev.subrange(0, i as int), name@) == " (since "@ + e@.time
                            + ")"@);
                        push_str(&mut l, " (since ");
                        push_string(&mut l, &e.time);
                        push_str(&mut l, ")");
                        assert(l@ =~= head + (" (since "@ + e.time@ + ")"@));
                        return l;
                    }
                }
                i = i - 1;
            }
            assert(ev.subrange(0, 0) =~= Seq::<JournalEntryView>::empty());
            l
        },
    }
}


// ── The dump ─────────────────────────────────────────────────────────

pub open spec fn opt_text(s: Option<String>) -> Option<Seq<char>> {
    match s {
        Some(x) => Some(x@),
        None => None,
    }
}

/// The lines of the dump. `files`, where given, holds each project's issues, in the
/// order of `ps`.
pub open spec fn dump_lines(
    ps: Seq<ProjectView>,
    files: Option<Seq<Seq<IssueView>>>,
    es: Seq<JournalEntryView>,
    active: Option<Seq<char>>,
    active_name: Option<Seq<char>>,
    today: Date,
) -> Seq<Seq<char>> {
    let order = project_order(ps);
    let sp = order.map_values(|i: int| ps[i]);
    seq!["jm -- Job Manager"@ + pad_left(day_heading(today), 28), Seq::<char>::empty()]
        + projects_section(sp) + blockers_section(sp, today) + (match files {
        Some(fs) => issues_section(sp, order.map_values(|i: int| fs[i])),
        None => Seq::empty(),
    }) + journal_section(es) + seq![active_line(active, active_name, es)]
}

/// The dump: its lines joined by newlines.
pub open spec fn dump_text(
    ps: Seq<ProjectView>,
    files: Option<Seq<Seq<IssueView>>>,
    es: Seq<JournalEntryView>,
    active: Option<Seq<char>>,
    active_name: Option<Seq<char>>,
    today: Date,
) -> Seq<char> {
    join(dump_lines(ps, files, es, active, active_name, today), "\n"@)
}

pub open spec fn files_view(fs: Seq<IssueFile>) -> Seq<Seq<IssueView>> {
    fs.map_values(|f: IssueFile| f@.issues)
}

pub open spec fn opt_files(issues: Option<&Vec<IssueFile>>) -> Option<Seq<Seq<IssueView>>> {
    match issues {
        Some(v) => Some(files_view(v@)),
        None => None,
    }
}

/// The number of open issues that the dump adds up, over the projects in dump order.
pub open spec fn open_total(ps: Seq<ProjectView>, fs: Seq<Seq<IssueView>>) -> nat {
    let order = project_order(ps);
    issues_block(order.map_values(|i: int| ps[i]), order.map_values(|i: int| fs[i])).1
}

/// What the dump needs of its inputs: real dates, focus texts that can be cut at 40 bytes,
/// and issue files that line up with the projects, whose open issues add up to a count that
/// fits in `usize` (the running total the dump keeps).
pub open spec fn dump_inputs_ok(ps: Seq<Project>, files: Option<Seq<IssueFile>>, today: Date) -> bool {
    &&& today.wf()
    &&& blocker_dates_wf(projects_view(ps))
    &&& focus_ok(projects_view(ps))
    &&& match files {
        Some(fs) => fs.len() == ps.len() && open_total(projects_view(ps), files_view(fs))
            <= usize::MAX,
        None => true,
    }
}

/// Generate the dump, optionally including the issues section, for the day `today`.
/// `active` is the active project's slug and `active_name` the name of the project with
/// that slug, where there is one.
pub fn generate_dump_with_issues_on(
    projects: &Vec<Project>,
    journal: &Vec<JournalEntry>,
    active: Option<String>,
    active_name: Option<String>,
    issues: Option<&Vec<IssueFile>>,
    today: Date,
) -> (r: String)
    requires
        dump_inputs_ok(
            projects@,
            match issues {
                Some(v) => Some(v@),
                None => None,
            },
            today,
        ),
    ensures
        r@ == dump_text(
            projects_view(projects@),
            match issues {
                Some(v) => Some(files_view(v@)),
                None => None,
            },
            entries_view(journal@),
            opt_text(active),
            opt_text(active_name),
            today,
        ),
{
    let ghost pv = projects_view(projects@);
    let order = order_of(projects);
    let ghost ord = project_order(pv);
    let ghost sp = ord.map_values(|i: int| pv[i]);
    let ghost om = order@.map_values(|i: usize| projects_view(projects@)[i as int]);
    let ghost oi = order@.map_values(|i: usize| i as int);
    assert(ord.len() == projects.len()) by {
        lemma_sort_prefix_len(pv, pv.len() as int);
    }
    assert(om =~= sp) by {
        assert forall|k: int| 0 <= k < om.len() implies #[trigger] om[k] == sp[k] by {
            assert(oi[k] == ord[k]);
        }
    }
    assert(ord.len() == projects.len()) by {
        lemma_sort_prefix_len(pv, pv.len() as int);
    }
    let mut ls: Vec<Vec<char>> = Vec::new();
    let mut h: Vec<char> = Vec::new();
    push_str(&mut h, "jm -- Job Manager");
    let mut day: Vec<char> = Vec::new();
    push_day_heading(&mut day, today);
    push_padded_left(&mut h, &day, 28);
    push_line(&mut ls, h);
    push_line(&mut ls, Vec::new());
    let ghost head = ls.deep_view();
    projects_section_of(&mut ls, projects, &order);
    blockers_section_of(&mut ls, projects, &order, today);
    let ghost mid = ls.deep_view();
    match issues {
        Some(files) => {
            let ghost fv = files_view(files@);
            let ghost fm = order@.map_values(|i: usize| files@[i as int]@.issues);
            let ghost sf = ord.map_values(|i: int| fv[i]);
            assert(fm =~= sf) by {
                assert forall|k: int| 0 <= k < fm.len() implies #[trigger] fm[k] == sf[k] by {
                    assert(oi[k] == ord[k]);
                }
            }
            issues_section_of(&mut ls, projects, &order, files);
        },
        None => {},
    }
    journal_section_of(&mut ls, journal);
    push_line(&mut ls, active_line_of(&active, &active_name, journal));
    assert(ls.deep_view() =~= dump_lines(
        pv,
        match issues {
            Some(v) => Some(files_view(v@)),
            None => None,
        },
        entries_view(journal@),
        opt_text(active),
        opt_text(active_name),
        today,
    ));
    let mut out: Vec<char> = Vec::new();
    push_joined(&mut out, &ls, &str_chars("\n"));
    string_from_chars(&out)
}

proof fn lemma_insert_len(ps: Seq<ProjectView>, x: int, s: Seq<int>)
    ensures
        insert_by(ps, x, s).len() == s.len() + 1,
    decreases s.len(),
{
    if s.len() > 0 && !project_le(ps[s.last()], ps[x]) {
        lemma_insert_len(ps, x, s.drop_last());
    }
}

proof fn lemma_sort_prefix_len(ps: Seq<ProjectView>, n: int)
    requires
        n >= 0,
    ensures
        sort_prefix(ps, n).len() == n,
    decreases n,
{
    if n > 0 {
        lemma_sort_prefix_len(ps, n - 1);
        lemma_insert_len(ps, n - 1, sort_prefix(ps, n - 1));
    }
}

/// Generate the dump for `today`, without the issues section.
pub fn generate_dump_on(
    projects: &Vec<Project>,
    journal: &Vec<JournalEntry>,
    active: Option<String>,
    active_name: Option<String>,
    today: Date,
) -> (r: String)
    requires
        dump_inputs_ok(projects@, None, today),
    ensures
        r@ == dump_text(
            projects_view(projects@),
            None,
            entries_view(journal@),
            opt_text(active),
            opt_text(active_name),
            today,
        ),
{
    generate_dump_with_issues_on(projects, journal, active, active_name, None, today)
}

/// Generate a clean text dump of the current state, dated today.
/// Returns plain text with no terminal escapes, suitable for AI agent consumption.
pub fn generate_dump(
    projects: &Vec<Project>,
    journal: &Vec<JournalEntry>,
    active: Option<String>,
    active_name: Option<String>,
) -> (r: String)
    requires
        blocker_dates_wf(projects_view(projects@)),
        focus_ok(projects_view(projects@)),
    ensures
        exists|d: Date|
            d.wf() && r@ == #[trigger] dump_text(
                projects_view(projects@),
                None,
                entries_view(journal@),
                opt_text(active),
                opt_text(active_name),
                d,
            ),
{
    let d = today();
    generate_dump_on(projects, journal, active, active_name, d)
}

/// Generate the dump dated today, optionally including the issues section.
pub fn generate_dump_with_issues(
    projects: &Vec<Project>,
    journal: &Vec<JournalEntry>,
    active: Option<String>,
    active_name: Option<String>,
    issues: Option<&Vec<IssueFile>>,
) -> (r: String)
    requires
        blocker_dates_wf(projects_view(projects@)),
        focus_ok(projects_view(projects@)),
        match issues {
            Some(v) => v.len() == projects.len() && open_total(
                projects_view(projects@),
                files_view(v@),
            ) <= usize::MAX,
            None => true,
        },
    ensures
        exists|d: Date|
            d.wf() && r@ == #[trigger] dump_text(
                projects_view(projects@),
                opt_files(issues),
                entries_view(journal@),
                opt_text(active),
                opt_text(active_name),
                d,
            ),
{
    let d = today();
    generate_dump_with_issues_on(projects, journal, active, active_name, issues, d)
}

// ── The dump without issues ──────────────────────────────────────────

/// A dump line that opens the issues section.
pub open spec fn starts_issues(l: Seq<char>) -> bool {
    l.len() >= 8 && l.subrange(0, 8) == "ISSUES ("@
}

spec fn not_i(l: Seq<char>) -> bool {
    l.len() == 0 || l[0] != 'I'
}

spec fn all_not_i(s: Seq<Seq<char>>) -> bool {
    forall|k: int| 0 <= k < s.len() ==> not_i(#[trigger] s[k])
}

proof fn lemma_all_not_i_concat(a: Seq<Seq<char>>, b: Seq<Seq<char>>)
    requires
        all_not_i(a),
        all_not_i(b),
    ensures
        all_not_i(a + b),
{
    assert forall|k: int| 0 <= k < (a + b).len() implies not_i(#[trigger] (a + b)[k]) by {
        if k < a.len() {
            assert((a + b)[k] == a[k]);
        } else {
            assert((a + b)[k] == b[k - a.len()]);
        }
    }
}

proof fn lemma_project_blocker_items(p: ProjectView, bs: Seq<crate::project::BlockerView>, today: Date)
    ensures
        all_not_i(project_blocker_items(p, bs, today)),
    decreases bs.len(),
{
    reveal_strlit("  ");
    if bs.len() > 0 {
        lemma_project_blocker_items(p, bs.drop_last(), today);
        let prev = project_blocker_items(p, bs.drop_last(), today);
        if !bs.last().resolved {
            let l = blocker_item(p, bs.last(), today);
            assert(l[0] == ' ');
            assert forall|k: int| 0 <= k < prev.push(l).len() implies not_i(#[trigger] prev.push(l)[k]) by {
                if k < prev.len() {
                    assert(prev.push(l)[k] == prev[k]);
                }
            }
        }
    }
}

proof fn lemma_blocker_items(sp: Seq<ProjectView>, today: Date)
    ensures
        all_not_i(blocker_items(sp, today)),
    decreases sp.len(),
{
    if sp.len() > 0 {
        lemma_blocker_items(sp.drop_last(), today);
        lemma_project_blocker_items(sp.last(), sp.last().blockers, today);
        lemma_all_not_i_concat(
            blocker_items(sp.drop_last(), today),
            project_blocker_items(sp.last(), sp.last().blockers, today),
        );
    }
}

/// The plain dump is the dump with issues less its issues section: both are the same
/// heading, projects and blockers, then (with issues) the issues section, then the same
/// journal and active line. No line of the plain dump opens an issues section.
pub proof fn lemma_dump_without_issues(
    ps: Seq<ProjectView>,
    fs: Seq<Seq<IssueView>>,
    es: Seq<JournalEntryView>,
    active: Option<Seq<char>>,
    active_name: Option<Seq<char>>,
    today: Date,
)
    ensures
        ({
            let order = project_order(ps);
            let sp = order.map_values(|i: int| ps[i]);
            let head = seq!["jm -- Job Manager"@ + pad_left(day_heading(today), 28), Seq::<char>::empty()]
                + projects_section(sp) + blockers_section(sp, today);
            let tail = journal_section(es) + seq![active_line(active, active_name, es)];
            &&& dump_lines(ps, None, es, active, active_name, today) == head + tail
            &&& dump_lines(ps, Some(fs), es, active, active_name, today) == head + issues_section(
                sp,
                order.map_values(|i: int| fs[i]),
            ) + tail
        }),
        forall|k: int|
            0 <= k < dump_lines(ps, None, es, active, active_name, today).len() ==> !starts_issues(
                #[trigger] dump_lines(ps, None, es, active, active_name, today)[k],
            ),
{
    reveal_strlit("ISSUES (");
    reveal_strlit("jm -- Job Manager");
    reveal_strlit("ACTIVE PROJECTS (");
    reveal_strlit("  ");
    reveal_strlit("  No projects yet");
    reveal_strlit("BLOCKERS (");
    reveal_strlit("  No open blockers");
    reveal_strlit("TODAY'S LOG");
    reveal_strlit("  No entries yet today");
    reveal_strlit("ACTIVE: ");
    reveal_strlit("ACTIVE: none");
    let order = project_order(ps);
    let sp = order.map_values(|i: int| ps[i]);
    let first = seq!["jm -- Job Manager"@ + pad_left(day_heading(today), 28), Seq::<char>::empty()];
    let head = first + projects_section(sp) + blockers_section(sp, today);
    let tail = journal_section(es) + seq![active_line(active, active_name, es)];
    assert(dump_lines(ps, None, es, active, active_name, today) =~= head + tail);
    assert(dump_lines(ps, Some(fs), es, active, active_name, today) =~= head + issues_section(
        sp,
        order.map_values(|i: int| fs[i]),
    ) + tail);
    // every part of the plain dump has no line that begins with `I`
    assert(all_not_i(first)) by {
        assert(first[0][0] == 'j');
    }
    let prows = sp.map_values(|p: ProjectView| project_row(p));
    assert(all_not_i(prows)) by {
        assert forall|k: int| 0 <= k < prows.len() implies not_i(#[trigger] prows[k]) by {
            assert(prows[k] == project_row(sp[k]));
            assert(prows[k][0] == ' ');
        }
    }
    assert(all_not_i(projects_section(sp))) by {
        let h = seq!["ACTIVE PROJECTS ("@ + dec(sp.len()) + ")"@];
        assert(h[0][0] == 'A');
        let body = if sp.len() > 0 {
            seq![table_header()] + prows
        } else {
            seq!["  No projects yet"@]
        };
        if sp.len() > 0 {
            reveal_strlit("Project");
            assert(table_header()[0] == ' ');
            assert(all_not_i(seq![table_header()]));
            lemma_all_not_i_concat(seq![table_header()], prows);
        } else {
            assert(body[0][0] == ' ');
        }
        assert(all_not_i(h));
        assert(all_not_i(seq![Seq::<char>::empty()]));
        lemma_all_not_i_concat(h, body);
        lemma_all_not_i_concat(h + body, seq![Seq::<char>::empty()]);
        assert(projects_section(sp) =~= h + body + seq![Seq::<char>::empty()]);
    }
    assert(all_not_i(blockers_section(sp, today))) by {
        let items = blocker_items(sp, today);
        lemma_blocker_items(sp, today);
        let h = seq!["BLOCKERS ("@ + dec(items.len()) + ")"@];
        assert(h[0][0] == 'B');
        assert(all_not_i(h));
        let body = if items.len() > 0 {
            items
        } else {
            seq!["  No open blockers"@]
        };
        if items.len() == 0 {
            assert(body[0][0] == ' ');
        }
        assert(all_not_i(seq![Seq::<char>::empty()]));
        lemma_all_not_i_concat(h, body);
        lemma_all_not_i_concat(h + body, seq![Seq::<char>::empty()]);
        assert(blockers_section(sp, today) =~= h + body + seq![Seq::<char>::empty()]);
    }
    assert(all_not_i(journal_section(es))) by {
        let h = seq!["TODAY'S LOG"@];
        assert(h[0][0] == 'T');
        assert(all_not_i(h));
        let rows = es.map_values(|e: JournalEntryView| entry_line(e));
        let body = if es.len() > 0 {
            rows
        } else {
            seq!["  No entries yet today"@]
        };
        if es.len() > 0 {
            assert forall|k: int| 0 <= k < rows.len() implies not_i(#[trigger] rows[k]) by {
                assert(rows[k] == entry_line(es[k]));
                assert(rows[k][0] == ' ');
            }
        } else {
            assert(body[0][0] == ' ');
        }
        assert(all_not_i(seq![Seq::<char>::empty()]));
        lemma_all_not_i_concat(h, body);
        lemma_all_not_i_concat(h + body, seq![Seq::<char>::empty()]);
        assert(journal_section(es) =~= h + body + seq![Seq::<char>::empty()]);
    }
    assert(all_not_i(seq![active_line(active, active_name, es)])) by {
        assert(active_line(active, active_name, es)[0] == 'A');
    }
    lemma_all_not_i_concat(first, projects_section(sp));
    lemma_all_not_i_concat(first + projects_section(sp), blockers_section(sp, today));
    lemma_all_not_i_concat(journal_section(es), seq![active_line(active, active_name, es)]);
    lemma_all_not_i_concat(head, tail);
    let all = dump_lines(ps, None, es, active, active_name, today);
    assert forall|k: int| 0 <= k < all.len() implies !starts_issues(#[trigger] all[k]) by {
        assert(not_i(all[k]));
        if all[k].len() >= 8 {
            assert(all[k].subrange(0, 8)[0] == all[k][0]);
            assert("ISSUES ("@[0] == 'I');
        }
    }
}

// ── The active line ──────────────────────────────────────────────────

/// The active project is shown by `name`: the name given for it, else its slug. Where some
/// journal entry of type `Started` or `Switched` holds that name in its project, and `k` is
/// the last such entry (every later entry is of another type or about another project),
/// the active line gives that entry's time: `ACTIVE: <name> (since <time>)`.
pub proof fn lemma_active_since_last_start(
    es: Seq<JournalEntryView>,
    slug: Seq<char>,
    active_name: Option<Seq<char>>,
    name: Seq<char>,
    k: int,
)
    requires
        name == (match active_name {
            Some(n) => n,
            None => slug,
        }),
        0 <= k < es.len(),
        es[k].entry_type == "Started"@ || es[k].entry_type == "Switched"@,
        contains(es[k].project, name),
        forall|j: int|
            k < j < es.len() ==> !((es[j].entry_type == "Started"@ || es[j].entry_type
                == "Switched"@) && #[trigger] contains(es[j].project, name)),
    ensures
        active_line(Some(slug), active_name, es) == "ACTIVE: "@ + name + " (since "@ + es[k].time
            + ")"@,
{
    lemma_last_start_at(es, name, k);
}

proof fn lemma_last_start_at(es: Seq<JournalEntryView>, name: Seq<char>, k: int)
    requires
        0 <= k < es.len(),
        (es[k].entry_type == "Started"@ || es[k].entry_type == "Switched"@) && contains(
            es[k].project,
            name,
        ),
        forall|j: int|
            k < j < es.len() ==> !((es[j].entry_type == "Started"@ || es[j].entry_type
                == "Switched"@) && #[trigger] contains(es[j].project, name)),
    ensures
        last_start(es, name) == " (since "@ + es[k].time + ")"@,
    decreases es.len(),
{
    if k < es.len() - 1 {
        let d = es.drop_last();
        assert(es.last() == es[es.len() - 1]);
        assert forall|j: int| k < j < d.len() implies !((d[j].entry_type == "Started"@
            || d[j].entry_type == "Switched"@) && #[trigger] contains(d[j].project, name)) by {
            assert(d[j] == es[j]);
        }
        lemma_last_start_at(d, name, k);
    } else {
        assert(es.last() == es[k]);
    }
}

/// Where no journal entry of type `Started` or `Switched` holds the active project's name,
/// the active line gives the name alone.
pub proof fn lemma_active_without_start(
    es: Seq<JournalEntryView>,
    slug: Seq<char>,
    active_name: Option<Seq<char>>,
    name: Seq<char>,
)
    requires
        name == (match active_name {
            Some(n) => n,
            None => slug,
        }),
        forall|j: int|
            0 <= j < es.len() ==> !((es[j].entry_type == "Started"@ || es[j].entry_type
                == "Switched"@) && #[trigger] contains(es[j].project, name)),
    ensures
        active_line(Some(slug), active_name, es) == "ACTIVE: "@ + name,
{
    lemma_no_start(es, name);
    assert("ACTIVE: "@ + name + Seq::<char>::empty() =~= "ACTIVE: "@ + name);
}

proof fn lemma_no_start(es: Seq<JournalEntryView>, name: Seq<char>)
    requires
        forall|j: int|
            0 <= j < es.len() ==> !((es[j].entry_type == "Started"@ || es[j].entry_type
                == "Switched"@) && #[trigger] contains(es[j].project, name)),
    ensures
        last_start(es, name) == Seq::<char>::empty(),
    decreases es.len(),
{
    if es.len() > 0 {
        let d = es.drop_last();
        assert(es.last() == es[es.len() - 1]);
        assert forall|j: int| 0 <= j < d.len() implies !((d[j].entry_type == "Started"@
            || d[j].entry_type == "Switched"@) && #[trigger] contains(d[j].project, name)) by {
            assert(d[j] == es[j]);
        }
        lemma_no_start(d, name);
    }
}

/// The dump's last line is the active line; with no active project it reads `ACTIVE: none`.
pub proof fn lemma_dump_ends_with_active(
    ps: Seq<ProjectView>,
    files: Option<Seq<Seq<IssueView>>>,
    es: Seq<JournalEntryView>,
    active: Option<Seq<char>>,
    active_name: Option<Seq<char>>,
    today: Date,
)
    ensures
        dump_lines(ps, files, es, active, active_name, today).last() == active_line(
            active,
            active_name,
            es,
        ),
        active is None ==> active_line(active, active_name, es) == "ACTIVE: none"@,
{
}

} // verus!
