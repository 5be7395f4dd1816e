//! Issues: hierarchical issues per project (an issue and its sub-issues).
//!
//! Stored as one markdown file per project:
//!
//! ```markdown
//! ---
//! project: hmi-framework
//! next_id: 4
//! ---
//!
//! ## #1 Implement focus ring on NavBar
//! status: todo
//! created: 2026-03-15
//! ```
use vstd::prelude::*;
use crate::date::{chrono_parse_ymd, date_text, lemma_date_read_back, parse_ymd, push_date, today, Date};
use crate::status::{issue_status_name, parse_issue_status, IssueStatus};
use crate::text::{
    run_len, ws_end,
    dec_pad, lemma_dec_digits, split_on,
    is_trimmed, lacks, lemma_trim_trimmed, trim_end,
    dec, find_at, find_from, has_prefix_at, is_digit, is_ws, is_whitespace, lemma_chars_deep_view,
    lines, lines_of, parse_u32, terminated, parse_u32_range, push_chars, push_dec, push_str, push_string,
    slice, starts_with_at, str_chars, string_from_chars, strip_leading, strip_leading_from, trim,
    trim_range, trim_start, trimmed,
};

verus! {

broadcast use vstd::string::group_string_axioms;

// ── Issue ────────────────────────────────────────────────────────────

#[derive(Clone, Debug, PartialEq)]
pub struct Issue {
    pub id: u32,
    pub title: String,
    pub status: IssueStatus,
    pub parent_id: Option<u32>,
    pub created: Date,
    pub closed: Option<Date>,
    pub notes: String,
    pub reference: String,
}

pub struct IssueView {
    pub id: u32,
    pub title: Seq<char>,
    pub status: IssueStatus,
    pub parent_id: Option<u32>,
    pub created: Date,
    pub closed: Option<Date>,
    pub notes: Seq<char>,
    pub reference: Seq<char>,
}

impl View for Issue {
    type V = IssueView;

    open spec fn view(&self) -> IssueView {
        IssueView {
            id: self.id,
            title: self.title@,
            status: self.status,
            parent_id: self.parent_id,
            created: self.created,
            closed: self.closed,
            notes: self.notes@,
            reference: self.reference@,
        }
    }
}

#[derive(Clone, Debug)]
pub struct IssueFile {
    pub project_slug: String,
    pub next_id: u32,
    pub issues: Vec<Issue>,
}

pub struct IssueFileView {
    pub project_slug: Seq<char>,
    pub next_id: u32,
    pub issues: Seq<IssueView>,
}

impl View for IssueFile {
    type V = IssueFileView;

    open spec fn view(&self) -> IssueFileView {
        IssueFileView {
            project_slug: self.project_slug@,
            next_id: self.next_id,
            issues: self.issues@.map_values(|i: Issue| i@),
        }
    }
}

// ── Writing ──────────────────────────────────────────────────────────

/// The lines that describe one issue, in the order they are written.
pub open spec fn issue_lines(i: IssueView) -> Seq<Seq<char>> {
    seq!["## #"@ + dec(i.id as nat) + " "@ + i.title, "status: "@ + issue_status_name(i.status)]
        + (match i.parent_id {
        Some(p) => seq!["parent: "@ + dec(p as nat)],
        None => Seq::<Seq<char>>::empty(),
    }) + (match i.closed {
        Some(c) => seq!["closed: "@ + date_text(c)],
        None => Seq::<Seq<char>>::empty(),
    }) + seq!["created: "@ + date_text(i.created)] + (if i.notes.len() > 0 {
        seq!["notes: "@ + i.notes]
    } else {
        Seq::<Seq<char>>::empty()
    }) + (if i.reference.len() > 0 {
        seq!["ref: "@ + i.reference]
    } else {
        Seq::<Seq<char>>::empty()
    })
}

/// One issue's text: an empty line, then its lines.
pub open spec fn issue_text(i: IssueView) -> Seq<char> {
    seq!['\n'] + terminated(issue_lines(i))
}

pub open spec fn issues_text(is: Seq<IssueView>) -> Seq<char>
    decreases is.len(),
{
    if is.len() == 0 {
        Seq::<char>::empty()
    } else {
        issues_text(is.drop_last()) + issue_text(is.last())
    }
}

/// The markdown form of an issue file: the frontmatter, then each issue.
pub open spec fn issue_file_text(f: IssueFileView) -> Seq<char> {
    "---\nproject: "@ + f.project_slug + "\nnext_id: "@ + dec(f.next_id as nat) + "\n---\n"@
        + issues_text(f.issues)
}

fn push_line(out: &mut Vec<char>, line: &Vec<char>)
    ensures
        final(out)@ == old(out)@ + line@ + seq!['\n'],
{
    push_chars(out, line);
    out.push('\n');
}

impl Issue {
    /// This issue's lines, as `issue_lines` gives them.
    fn lines_out(&self) -> (r: Vec<Vec<char>>)
        ensures
            r.deep_view() == issue_lines(self@),
    {
        let mut r: Vec<Vec<char>> = Vec::new();
        let mut l: Vec<char> = Vec::new();
        push_str(&mut l, "## #");
        push_dec(&mut l, self.id as u64);
        push_str(&mut l, " ");
        push_string(&mut l, &self.title);
        proof { lemma_chars_deep_view(&l); }
        r.push(l);
        let mut l: Vec<char> = Vec::new();
        push_str(&mut l, "status: ");
        let st = self.status.to_string();
        push_string(&mut l, &st);
        proof { lemma_chars_deep_view(&l); }
        r.push(l);
        let ghost acc = seq!["## #"@ + dec(self.id as nat) + " "@ + self.title@, "status: "@ + issue_status_name(self.status)];
        assert(r.deep_view() =~= acc);
        if let Some(pid) = self.parent_id {
            let mut l: Vec<char> = Vec::new();
            push_str(&mut l, "parent: ");
            push_dec(&mut l, pid as u64);
            proof { lemma_chars_deep_view(&l); }
            r.push(l);
        }
        let ghost acc = acc + (match self.parent_id {
            Some(p) => seq!["parent: "@ + dec(p as nat)],
            None => Seq::<Seq<char>>::empty(),
        });
        assert(r.deep_view() =~= acc);
        if let Some(c) = self.closed {
            let mut l: Vec<char> = Vec::new();
            push_str(&mut l, "closed: ");
            push_date(&mut l, c);
            proof { lemma_chars_deep_view(&l); }
            r.push(l);
        }
        let ghost acc = acc + (match self.closed {
            Some(c) => seq!["closed: "@ + date_text(c)],
            None => Seq::<Seq<char>>::empty(),
        });
        assert(r.deep_view() =~= acc);
        let mut l: Vec<char> = Vec::new();
        push_str(&mut l, "created: ");
        push_date(&mut l, self.created);
        proof { lemma_chars_deep_view(&l); }
        r.push(l);
        let ghost acc = acc + seq!["created: "@ + date_text(self.created)];
        assert(r.deep_view() =~= acc);
        if self.notes.as_str().is_empty() == false {
            let mut l: Vec<char> = Vec::new();
            push_str(&mut l, "notes: ");
            push_string(&mut l, &self.notes);
            proof { lemma_chars_deep_view(&l); }
            r.push(l);
        }
        let ghost acc = acc + (if self.notes@.len() > 0 {
            seq!["notes: "@ + self.notes@]
        } else {
            Seq::<Seq<char>>::empty()
        });
        assert(r.deep_view() =~= acc);
        if self.reference.as_str().is_empty() == false {
            let mut l: Vec<char> = Vec::new();
            push_str(&mut l, "ref: ");
            push_string(&mut l, &self.reference);
            proof { lemma_chars_deep_view(&l); }
            r.push(l);
        }
        let ghost acc = acc + (if self.reference@.len() > 0 {
            seq!["ref: "@ + self.reference@]
        } else {
            Seq::<Seq<char>>::empty()
        });
        assert(r.deep_view() =~= acc);
        assert(acc =~= issue_lines(self@));
        r
    }
}

fn push_terminated(out: &mut Vec<char>, ls: &Vec<Vec<char>>)
    ensures
        final(out)@ == old(out)@ + terminated(ls.deep_view()),
{
    let ghost start = out@;
    let mut i: usize = 0;
    while i < ls.len()
        invariant
            i <= ls.len(),
            out@ == start + terminated(ls.deep_view().subrange(0, i as int)),
        decreases ls.len() - i,
    {
        let ghost pre = ls.deep_view().subrange(0, i as int);
        let ghost nxt = ls.deep_view().subrange(0, i + 1);
        assert(nxt.drop_last() =~= pre);
        push_line(out, &ls[i]);
        assert(out@ =~= start + terminated(nxt));
        i = i + 1;
    }
    assert(ls.deep_view().subrange(0, ls.len() as int) =~= ls.deep_view());
}

impl IssueFile {
    pub fn new(project_slug: &str) -> (r: IssueFile)
        ensures
            r@.project_slug == project_slug@,
            r@.next_id == 1,
            r@.issues.len() == 0,
    {
        let v = str_chars(project_slug);
        IssueFile { project_slug: string_from_chars(&v), next_id: 1, issues: Vec::new() }
    }

    /// The markdown form of the file.
    pub fn to_markdown(&self) -> (r: String)
        ensures
            r@ == issue_file_text(self@),
    {
        let mut out: Vec<char> = Vec::new();
        push_str(&mut out, "---\nproject: ");
        push_string(&mut out, &self.project_slug);
        push_str(&mut out, "\nnext_id: ");
        push_dec(&mut out, self.next_id as u64);
        push_str(&mut out, "\n---\n");
        let ghost head = out@;
        let mut i: usize = 0;
        while i < self.issues.len()
            invariant
                i <= self.issues.len(),
                out@ == head + issues_text(self@.issues.subrange(0, i as int)),
            decreases self.issues.len() - i,
        {
            let ghost pre = self@.issues.subrange(0, i as int);
            let ghost nxt = self@.issues.subrange(0, i + 1);
            assert(nxt.drop_last() =~= pre);
            let ls = self.issues[i].lines_out();
            let ghost before = out@;
            out.push('\n');
            push_terminated(&mut out, &ls);
            assert(out@ =~= before + issue_text(nxt.last()));
            i = i + 1;
        }
        assert(self@.issues.subrange(0, self.issues.len() as int) =~= self@.issues);
        string_from_chars(&out)
    }
}

// ── Children ─────────────────────────────────────────────────────────

/// The issues whose parent is `parent`, in file order.
pub open spec fn children_of(is: Seq<IssueView>, parent: Option<u32>) -> Seq<IssueView>
    decreases is.len(),
{
    if is.len() == 0 {
        Seq::<IssueView>::empty()
    } else if is.last().parent_id == parent {
        children_of(is.drop_last(), parent).push(is.last())
    } else {
        children_of(is.drop_last(), parent)
    }
}

/// The issues of a file grouped by parent (`None` for top-level issues).
pub struct ChildrenMap<'a> {
    issues: &'a Vec<Issue>,
}

impl<'a> ChildrenMap<'a> {
    pub closed spec fn issues_view(&self) -> Seq<IssueView> {
        self.issues@.map_values(|i: Issue| i@)
    }

    /// The children of `parent`, or `None` when it has none.
    pub fn get(&self, parent: &Option<u32>) -> (r: Option<Vec<&'a Issue>>)
        ensures
            match r {
                Some(v) => v.len() > 0 && v@.map_values(|i: &Issue| i@) == children_of(
                    self.issues_view(),
                    *parent,
                ),
                None => children_of(self.issues_view(), *parent).len() == 0,
            },
    {
        let mut v: Vec<&'a Issue> = Vec::new();
        let mut i: usize = 0;
        while i < self.issues.len()
            invariant
                i <= self.issues.len(),
                v@.map_values(|x: &Issue| x@) == children_of(
                    self.issues_view().subrange(0, i as int),
                    *parent,
                ),
            decreases self.issues.len() - i,
        {
            let ghost pre = self.issues_view().subrange(0, i as int);
            let ghost nxt = self.issues_view().subrange(0, i + 1);
            assert(nxt.drop_last() =~= pre);
            assert(nxt.last() == self.issues[i as int]@);
            let it: &'a Issue = &self.issues[i];
            let same = match (it.parent_id, parent) {
                (None, None) => true,
                (Some(a), Some(b)) => a == *b,
                _ => false,
            };
            if same {
                let ghost old_v = v@.map_values(|x: &Issue| x@);
                v.push(it);
                assert(v@.map_values(|x: &Issue| x@) =~= old_v.push(it@));
            }
            i = i + 1;
        }
        assert(self.issues_view().subrange(0, self.issues.len() as int) =~= self.issues_view());
        if v.len() == 0 {
            None
        } else {
            Some(v)
        }
    }

    /// The parents that have children: each issue's parent id (`None` for a top-level
    /// issue), as a set.
    pub open spec fn parents(&self) -> Set<Option<u32>> {
        self.issues_view().map_values(|i: IssueView| i.parent_id).to_set()
    }

    /// How many parents have children (the top level counting as one where it has
    /// issues).
    pub fn len(&self) -> (r: usize)
        ensures
            r == self.parents().len(),
    {
        let ghost is = self.issues_view();
        let ghost ps = is.map_values(|i: IssueView| i.parent_id);
        let mut keys: Vec<Option<u32>> = Vec::new();
        let mut k: usize = 0;
        while k < self.issues.len()
            invariant
                k <= self.issues.len(),
                is == self.issues_view(),
                ps == is.map_values(|i: IssueView| i.parent_id),
                keys@.no_duplicates(),
                keys@.to_set() =~= ps.subrange(0, k as int).to_set(),
                keys@.len() <= k,
            decreases self.issues.len() - k,
        {
            let p = self.issues[k].parent_id;
            assert(p == ps[k as int]);
            let mut found = false;
            let mut j: usize = 0;
            while j < keys.len()
                invariant
                    j <= keys.len(),
                    found <==> exists|t: int| 0 <= t < j && keys@[t] == p,
                decreases keys.len() - j,
            {
                if keys[j] == p {
                    found = true;
                }
                j = j + 1;
            }
            let ghost old_keys = keys@;
            assert(ps.subrange(0, k + 1) =~= ps.subrange(0, k as int).push(p));
            proof {
                ps.subrange(0, k as int).lemma_push_to_set_commute(p);
            }
            if !found {
                keys.push(p);
                assert(keys@ =~= old_keys.push(p));
                proof {
                    old_keys.lemma_push_to_set_commute(p);
                }
                assert forall|a: int, b: int| 0 <= a < b < keys@.len() implies #[trigger] keys@[a] != #[trigger] keys@[b] by {
                    if b == old_keys.len() {
                        assert(keys@[a] == old_keys[a]);
                    }
                }
            } else {
                let ghost t = choose|t: int| 0 <= t < keys@.len() && keys@[t] == p;
                assert(keys@.to_set().contains(p));
                assert(keys@.to_set().insert(p) =~= keys@.to_set());
            }
            k = k + 1;
        }
        assert(ps.subrange(0, k as int) =~= ps);
        proof {
            keys@.unique_seq_to_set();
        }
        keys.len()
    }

    /// Whether `parent` has any children.
    pub fn contains_key(&self, parent: &Option<u32>) -> (b: bool)
        ensures
            b == (children_of(self.issues_view(), *parent).len() > 0),
    {
        self.get(parent).is_some()
    }
}

impl IssueFile {
    /// The issues grouped by parent id, each group in file order.
    pub fn children_map(&self) -> (r: ChildrenMap<'_>)
        ensures
            r.issues_view() == self@.issues,
    {
        ChildrenMap { issues: &self.issues }
    }
}

// ── Reading ──────────────────────────────────────────────────────────

pub open spec fn is_key_char(c: char) -> bool {
    ('a' <= c && c <= 'z') || c == '_'
}

/// The first position of `c` in `s`.
pub open spec fn index_of_char(s: Seq<char>, c: char) -> Option<int> {
    find_from(s, 0, seq![c])
}

/// A frontmatter line as a `key: value` pair: split at the first `:`, both parts trimmed.
pub open spec fn meta_line(l: Seq<char>) -> Option<(Seq<char>, Seq<char>)> {
    let t = trim(l);
    if t.len() == 0 {
        None
    } else {
        match index_of_char(t, ':') {
            Some(i) => Some((trim(t.take(i)), trim(t.skip(i + 1)))),
            None => None,
        }
    }
}

/// The value of the last pair with the given key.
pub open spec fn lookup(pairs: Seq<(Seq<char>, Seq<char>)>, key: Seq<char>) -> Option<Seq<char>>
    decreases pairs.len(),
{
    if pairs.len() == 0 {
        None
    } else if pairs.last().0 == key {
        Some(pairs.last().1)
    } else {
        lookup(pairs.drop_last(), key)
    }
}

/// The simple frontmatter of an issue file: after leading white space, `---`, the
/// `key: value` lines up to the first `\n---`, and the body after it with its leading
/// newlines removed. Text that does not start with `---` is all body.
pub open spec fn simple_frontmatter(text: Seq<char>) -> Result<
    (Seq<(Seq<char>, Seq<char>)>, Seq<char>),
    Seq<char>,
> {
    let t = trim_start(text);
    if !has_prefix_at(t, 0, "---"@) {
        Ok((Seq::<(Seq<char>, Seq<char>)>::empty(), t))
    } else {
        let af = t.skip(3);
        match find_from(af, 0, "\n---"@) {
            None => Err("no closing --- in frontmatter"@),
            Some(e) => Ok(
                (
                    lines(af.take(e)).filter_map(|l: Seq<char>| meta_line(l)),
                    if e + 4 < af.len() {
                        strip_leading(af.skip(e + 4), '\n')
                    } else {
                        Seq::<char>::empty()
                    },
                ),
            ),
        }
    }
}

/// A line that starts an issue.
pub open spec fn is_issue_header(l: Seq<char>) -> bool {
    has_prefix_at(l, 0, "## #"@)
}

/// The issue blocks of the body: each header line (with `## ` removed and trimmed) and the
/// lines after it up to the next header. Lines before the first header are ignored.
pub open spec fn blocks(ls: Seq<Seq<char>>) -> Seq<(Seq<char>, Seq<Seq<char>>)>
    decreases ls.len(),
{
    if ls.len() == 0 {
        Seq::<(Seq<char>, Seq<Seq<char>>)>::empty()
    } else {
        let b = blocks(ls.drop_last());
        let l = ls.last();
        if is_issue_header(l) {
            b.push((trim(l.skip(3)), Seq::<Seq<char>>::empty()))
        } else if b.len() == 0 {
            b
        } else {
            b.update(b.len() - 1, (b.last().0, b.last().1.push(l)))
        }
    }
}

/// The header `#<digits><white space><title>`: the digits and the raw title.
pub open spec fn header_match(h: Seq<char>) -> Option<(Seq<char>, Seq<char>)> {
    if h.len() == 0 || h[0] != '#' {
        None
    } else {
        let j: int = (1 + run_len(h.skip(1), |c: char| is_digit(c))) as int;
        if j == 1 {
            None
        } else {
            let w: int = run_len(h.skip(j), |c: char| is_ws(c)) as int;
            if w == 0 {
                None
            } else if j + w < h.len() {
                Some((h.subrange(1, j), h.skip(j + w)))
            } else if w >= 2 {
                Some((h.subrange(1, j), h.skip(j + w - 1)))
            } else {
                None
            }
        }
    }
}

/// A detail line `key: value` (the key of `a`..`z` and `_`), the value trimmed.
pub open spec fn field_line(l: Seq<char>) -> Option<(Seq<char>, Seq<char>)> {
    let t = trim(l);
    let k: int = run_len(t, |c: char| is_key_char(c)) as int;
    if k >= 1 && k < t.len() && t[k] == ':' {
        Some((t.take(k), trim(t.skip(k + 1))))
    } else {
        None
    }
}

/// The issue a block describes; `today` stands in for a missing or unreadable creation date.
pub open spec fn parse_issue_block(
    header: Seq<char>,
    details: Seq<Seq<char>>,
    today: Date,
) -> Option<IssueView> {
    match header_match(header) {
        None => None,
        Some((digits, raw_title)) => match parse_u32(digits) {
            None => None,
            Some(id) => {
                let f = details.filter_map(|l: Seq<char>| field_line(l));
                Some(
                    IssueView {
                        id,
                        title: trim(raw_title),
                        status: match lookup(f, "status"@) {
                            Some(v) => match parse_issue_status(v) {
                                Ok(st) => st,
                                Err(_) => IssueStatus::Todo,
                            },
                            None => IssueStatus::Todo,
                        },
                        parent_id: match lookup(f, "parent"@) {
                            Some(v) => parse_u32(v),
                            None => None,
                        },
                        created: match lookup(f, "created"@) {
                            Some(v) => match chrono_parse_ymd(v) {
                                Some(d) => d,
                                None => today,
                            },
                            None => today,
                        },
                        closed: match lookup(f, "closed"@) {
                            Some(v) => chrono_parse_ymd(v),
                            None => None,
                        },
                        notes: match lookup(f, "notes"@) {
                            Some(v) => v,
                            None => Seq::<char>::empty(),
                        },
                        reference: match lookup(f, "ref"@) {
                            Some(v) => v,
                            None => Seq::<char>::empty(),
                        },
                    },
                )
            },
        },
    }
}

pub open spec fn parse_blocks(bs: Seq<(Seq<char>, Seq<Seq<char>>)>, today: Date) -> Seq<IssueView>
    decreases bs.len(),
{
    if bs.len() == 0 {
        Seq::<IssueView>::empty()
    } else {
        let rest = parse_blocks(bs.drop_last(), today);
        match parse_issue_block(bs.last().0, bs.last().1, today) {
            Some(i) => rest.push(i),
            None => rest,
        }
    }
}

/// What `IssueFile::from_markdown` reads from `text`.
pub open spec fn parse_issue_file(text: Seq<char>, today: Date) -> Result<IssueFileView, Seq<char>> {
    match simple_frontmatter(text) {
        Err(e) => Err(e),
        Ok((meta, body)) => Ok(
            IssueFileView {
                project_slug: match lookup(meta, "project"@) {
                    Some(v) => v,
                    None => Seq::<char>::empty(),
                },
                next_id: match lookup(meta, "next_id"@) {
                    Some(v) => match parse_u32(v) {
                        Some(n) => n,
                        None => 1,
                    },
                    None => 1,
                },
                issues: parse_blocks(blocks(lines(body)), today),
            },
        ),
    }
}

// ── Reading: executable parts ─────────────────────────────────────────

/// The end of the run of ASCII digits that starts at `from`.
fn digits_end(s: &Vec<char>, from: usize) -> (r: usize)
    requires
        from <= s.len(),
    ensures
        from <= r <= s.len(),
        r - from == run_len(s@.skip(from as int), |c: char| is_digit(c)),
{
    let mut i = from;
    while i < s.len() && '0' <= s[i] && s[i] <= '9'
        invariant
            from <= i <= s.len(),
            (i - from) + run_len(s@.skip(i as int), |c: char| is_digit(c)) == run_len(
                s@.skip(from as int),
                |c: char| is_digit(c),
            ),
        decreases s.len() - i,
    {
        assert(s@.skip(i as int).drop_first() =~= s@.skip(i + 1));
        i = i + 1;
    }
    i
}

/// The end of the run of key characters (`a`..`z`, `_`) that starts at `from`.
fn key_end(s: &Vec<char>, from: usize) -> (r: usize)
    requires
        from <= s.len(),
    ensures
        from <= r <= s.len(),
        r - from == run_len(s@.skip(from as int), |c: char| is_key_char(c)),
{
    let mut i = from;
    while i < s.len() && (('a' <= s[i] && s[i] <= 'z') || s[i] == '_')
        invariant
            from <= i <= s.len(),
            (i - from) + run_len(s@.skip(i as int), |c: char| is_key_char(c)) == run_len(
                s@.skip(from as int),
                |c: char| is_key_char(c),
            ),
        decreases s.len() - i,
    {
        assert(s@.skip(i as int).drop_first() =~= s@.skip(i + 1));
        i = i + 1;
    }
    i
}

/// `meta_line` of `l`.
fn meta_line_of(l: &Vec<char>) -> (r: Option<(Vec<char>, Vec<char>)>)
    ensures
        r.deep_view() == meta_line(l@),
{
    let t = trimmed(l);
    if t.len() == 0 {
        return None;
    }
    let colon = vec![':'];
    assert(colon@ =~= seq![':']);
    let fi = find_at(&t, 0, &colon);
    assert(index_of_char(t@, ':') == find_from(t@, 0, colon@));
    match fi {
        None => {
            assert(index_of_char(t@, ':') == None::<int>);
            None
        },
        Some(i) => {
            assert(index_of_char(t@, ':') == Some(i as int));
            let (a, b) = trim_range(&t, 0, i);
            let (c, d) = trim_range(&t, i + 1, t.len());
            let k = slice(&t, a, b);
            let v = slice(&t, c, d);
            assert(t@.subrange(0, i as int) =~= t@.take(i as int));
            assert(t@.subrange(i + 1, t@.len() as int) =~= t@.skip(i + 1));
            proof {
                lemma_chars_deep_view(&k);
                lemma_chars_deep_view(&v);
            }
            assert(meta_line(l@) == Some((k@, v@)));
            let r = Some((k, v));
            assert(r.deep_view() == Some((k@, v@)));
            r
        },
    }
}

/// `field_line` of `l`.
fn field_line_of(l: &Vec<char>) -> (r: Option<(Vec<char>, Vec<char>)>)
    ensures
        r.deep_view() == field_line(l@),
{
    let t = trimmed(l);
    let k = key_end(&t, 0);
    assert(t@.skip(0) =~= t@);
    if k >= 1 && k < t.len() && t[k] == ':' {
        let key = slice(&t, 0, k);
        let (c, d) = trim_range(&t, k + 1, t.len());
        let v = slice(&t, c, d);
        assert(t@.subrange(0, k as int) =~= t@.take(k as int));
        assert(t@.subrange(k + 1, t@.len() as int) =~= t@.skip(k + 1));
        proof {
            lemma_chars_deep_view(&key);
            lemma_chars_deep_view(&v);
        }
        Some((key, v))
    } else {
        None
    }
}

/// `lookup(pairs, key)`.
fn lookup_in(pairs: &Vec<(Vec<char>, Vec<char>)>, key: &str) -> (r: Option<Vec<char>>)
    ensures
        r.deep_view() == lookup(pairs.deep_view(), key@),
{
    let kc = str_chars(key);
    let mut i = pairs.len();
    assert(pairs.deep_view().subrange(0, i as int) =~= pairs.deep_view());
    while i > 0
        invariant
            i <= pairs.len(),
            kc@ == key@,
            lookup(pairs.deep_view().subrange(0, i as int), key@) == lookup(
                pairs.deep_view(),
                key@,
            ),
        decreases i,
    {
        let ghost pre = pairs.deep_view().subrange(0, i as int);
        assert(pre.drop_last() =~= pairs.deep_view().subrange(0, i - 1));
        let k = &pairs[i - 1].0;
        let same = crate::text::range_eq(k, 0, k.len(), &kc);
        assert(k@.subrange(0, k@.len() as int) =~= k@);
        proof { lemma_chars_deep_view(k); }
        assert(pre.last() == pairs.deep_view()[i - 1]);
        assert(pre.last().0 == k@);
        assert(kc@ == key@);
        if same {
            let v = slice(&pairs[i - 1].1, 0, pairs[i - 1].1.len());
            assert(pairs[i - 1].1@.subrange(0, pairs[i - 1].1@.len() as int) =~= pairs[i
                - 1].1@);
            proof {
                lemma_chars_deep_view(&v);
                lemma_chars_deep_view(&pairs[i - 1].1);
            }
            assert(pre.last().1 == v@);
            let r = Some(v);
            assert(r.deep_view() == Some(v@));
            return r;
        }
        i = i - 1;
    }
    assert(pairs.deep_view().subrange(0, 0) =~= Seq::<(Seq<char>, Seq<char>)>::empty());
    None
}

/// `s.filter_map(f)` for a prefix, extended by one element.
proof fn lemma_filter_map_step<A, B>(s: Seq<A>, i: int, f: spec_fn(A) -> Option<B>)
    requires
        0 <= i < s.len(),
    ensures
        s.subrange(0, i + 1).filter_map(f) == (match f(s[i]) {
            Some(b) => s.subrange(0, i).filter_map(f).push(b),
            None => s.subrange(0, i).filter_map(f),
        }),
{
    assert(s.subrange(0, i + 1).drop_last() =~= s.subrange(0, i));
    let r = s.subrange(0, i + 1).filter_map(f);
    match f(s[i]) {
        Some(b) => {
            assert(r =~= s.subrange(0, i).filter_map(f).push(b));
        },
        None => {},
    }
}

/// The pairs of `ls.filter_map(meta_line)`.
fn meta_pairs(ls: &Vec<Vec<char>>) -> (r: Vec<(Vec<char>, Vec<char>)>)
    ensures
        r.deep_view() == ls.deep_view().filter_map(|l: Seq<char>| meta_line(l)),
{
    let mut r: Vec<(Vec<char>, Vec<char>)> = Vec::new();
    let mut i: usize = 0;
    while i < ls.len()
        invariant
            i <= ls.len(),
            r.deep_view() == ls.deep_view().subrange(0, i as int).filter_map(
                |l: Seq<char>| meta_line(l),
            ),
        decreases ls.len() - i,
    {
        proof {
            lemma_filter_map_step(ls.deep_view(), i as int, |l: Seq<char>| meta_line(l));
            lemma_chars_deep_view(&ls[i as int]);
        }
        let ghost old_r = r.deep_view();
        match meta_line_of(&ls[i]) {
            Some(p) => {
                r.push(p);
                assert(r.deep_view() =~= old_r.push(r.deep_view().last()));
            },
            None => {},
        }
        i = i + 1;
    }
    assert(ls.deep_view().subrange(0, ls.len() as int) =~= ls.deep_view());
    r
}

/// The pairs of `ls.filter_map(field_line)`.
fn field_pairs(ls: &Vec<Vec<char>>) -> (r: Vec<(Vec<char>, Vec<char>)>)
    ensures
        r.deep_view() == ls.deep_view().filter_map(|l: Seq<char>| field_line(l)),
{
    let mut r: Vec<(Vec<char>, Vec<char>)> = Vec::new();
    let mut i: usize = 0;
    while i < ls.len()
        invariant
            i <= ls.len(),
            r.deep_view() == ls.deep_view().subrange(0, i as int).filter_map(
                |l: Seq<char>| field_line(l),
            ),
        decreases ls.len() - i,
    {
        proof {
            lemma_filter_map_step(ls.deep_view(), i as int, |l: Seq<char>| field_line(l));
            lemma_chars_deep_view(&ls[i as int]);
        }
        let ghost old_r = r.deep_view();
        match field_line_of(&ls[i]) {
            Some(p) => {
                r.push(p);
                assert(r.deep_view() =~= old_r.push(r.deep_view().last()));
            },
            None => {},
        }
        i = i + 1;
    }
    assert(ls.deep_view().subrange(0, ls.len() as int) =~= ls.deep_view());
    r
}

/// The text of `v` as a `String`.
fn to_string(v: &Vec<char>) -> (r: String)
    ensures
        r@ == v@,
{
    string_from_chars(v)
}

/// `header_match(h)`, as positions: the digits are `h[1..j]`, the raw title `h[t..]`.
fn header_match_of(h: &Vec<char>) -> (r: Option<(usize, usize)>)
    ensures
        match (r, header_match(h@)) {
            (Some((j, t)), Some((d, raw))) => 1 <= j <= t <= h.len() && d == h@.subrange(
                1,
                j as int,
            ) && raw == h@.skip(t as int),
            (None, None) => true,
            _ => false,
        },
{
    if h.len() == 0 || h[0] != '#' {
        return None;
    }
    let j = digits_end(h, 1);
    if j == 1 {
        return None;
    }
    let e = ws_end(h, j);
    let w = e - j;
    if w == 0 {
        None
    } else if j + w < h.len() {
        Some((j, j + w))
    } else if w >= 2 {
        Some((j, j + w - 1))
    } else {
        None
    }
}

/// `parse_issue_block(header, details, today)`.
fn parse_issue_block_of(header: &Vec<char>, details: &Vec<Vec<char>>, today: Date) -> (r: Option<
    Issue,
>)
    ensures
        match (r, parse_issue_block(header@, details.deep_view(), today)) {
            (Some(a), Some(b)) => a@ == b,
            (None, None) => true,
            _ => false,
        },
{
    let hm = header_match_of(header);
    let (j, t) = match hm {
        None => {
            return None;
        },
        Some(p) => p,
    };
    let id = match parse_u32_range(header, 1, j) {
        None => {
            return None;
        },
        Some(n) => n,
    };
    let raw = slice(header, t, header.len());
    assert(raw@ =~= header@.skip(t as int));
    let title = trimmed(&raw);
    let f = field_pairs(details);
    let ghost fv = details.deep_view().filter_map(|l: Seq<char>| field_line(l));
    let status = match lookup_in(&f, "status") {
        Some(v) => {
            proof { lemma_chars_deep_view(&v); }
            match IssueStatus::parse(to_string(&v).as_str()) {
                Ok(st) => st,
                Err(_) => IssueStatus::Todo,
            }
        },
        None => IssueStatus::Todo,
    };
    let parent_id = match lookup_in(&f, "parent") {
        Some(v) => {
            proof { lemma_chars_deep_view(&v); }
            let r = parse_u32_range(&v, 0, v.len());
            assert(v@.subrange(0, v@.len() as int) =~= v@);
            r
        },
        None => None,
    };
    let created = match lookup_in(&f, "created") {
        Some(v) => {
            proof { lemma_chars_deep_view(&v); }
            match parse_ymd(to_string(&v).as_str()) {
                Some(d) => d,
                None => today,
            }
        },
        None => today,
    };
    let closed = match lookup_in(&f, "closed") {
        Some(v) => {
            proof { lemma_chars_deep_view(&v); }
            parse_ymd(to_string(&v).as_str())
        },
        None => None,
    };
    let notes = match lookup_in(&f, "notes") {
        Some(v) => {
            proof { lemma_chars_deep_view(&v); }
            to_string(&v)
        },
        None => to_string(&Vec::new()),
    };
    let reference = match lookup_in(&f, "ref") {
        Some(v) => {
            proof { lemma_chars_deep_view(&v); }
            to_string(&v)
        },
        None => to_string(&Vec::new()),
    };
    let issue = Issue {
        id,
        title: to_string(&title),
        status,
        parent_id,
        created,
        closed,
        notes,
        reference,
    };
    assert(issue@.notes =~= (match lookup(fv, "notes"@) {
        Some(v) => v,
        None => Seq::<char>::empty(),
    }));
    assert(issue@.reference =~= (match lookup(fv, "ref"@) {
        Some(v) => v,
        None => Seq::<char>::empty(),
    }));
    Some(issue)
}

/// The blocks of `ls`, as `blocks` groups them.
fn blocks_of(ls: &Vec<Vec<char>>) -> (r: Vec<(Vec<char>, Vec<Vec<char>>)>)
    ensures
        r.deep_view() == blocks(ls.deep_view()),
{
    let prefix_p = str_chars("## #");
    proof { reveal_strlit("## #"); }
    let mut done: Vec<(Vec<char>, Vec<Vec<char>>)> = Vec::new();
    let mut cur_header: Option<Vec<char>> = None;
    let mut cur_details: Vec<Vec<char>> = Vec::new();
    let mut i: usize = 0;
    while i < ls.len()
        invariant
            i <= ls.len(),
            prefix_p@ == "## #"@,
            prefix_p@.len() == 4,
            cur_header is None ==> done.len() == 0,
            blocks(ls.deep_view().subrange(0, i as int)) == done.deep_view() + (match cur_header {
                Some(h) => seq![(h@, cur_details.deep_view())],
                None => Seq::<(Seq<char>, Seq<Seq<char>>)>::empty(),
            }),
        decreases ls.len() - i,
    {
        let ghost pre = ls.deep_view().subrange(0, i as int);
        let ghost nxt = ls.deep_view().subrange(0, i + 1);
        assert(nxt.drop_last() =~= pre);
        let line = &ls[i];
        proof { lemma_chars_deep_view(line); }
        assert(nxt.last() == line@);
        let is_h = range_starts_with_line(line, &prefix_p);
        if is_h {
            let (a, b) = trim_range(line, 3, line.len());
            let h = slice(line, a, b);
            assert(line@.subrange(3, line@.len() as int) =~= line@.skip(3));
            let ghost dv = done.deep_view();
            match cur_header {
                Some(ch) => {
                    let ghost chv = ch@;
                    let ghost cdv = cur_details.deep_view();
                    proof { lemma_chars_deep_view(&ch); }
                    done.push((ch, cur_details));
                    assert(done.deep_view() =~= dv.push((chv, cdv)));
                },
                None => {},
            }
            cur_details = Vec::new();
            assert(cur_details.deep_view() =~= Seq::<Seq<char>>::empty());
            proof { lemma_chars_deep_view(&h); }
            assert(blocks(nxt) == blocks(pre).push((h@, Seq::<Seq<char>>::empty())));
            cur_header = Some(h);
            assert(blocks(nxt) =~= done.deep_view() + seq![(h@, cur_details.deep_view())]);
        } else {
            if cur_header.is_some() {
                let ghost old_d = cur_details.deep_view();
                let ln = slice(line, 0, line.len());
                assert(ln@ =~= line@);
                proof { lemma_chars_deep_view(&ln); }
                cur_details.push(ln);
                assert(cur_details.deep_view() =~= old_d.push(line@));
                assert(blocks(nxt) =~= done.deep_view() + (match cur_header {
                    Some(h) => seq![(h@, cur_details.deep_view())],
                    None => Seq::<(Seq<char>, Seq<Seq<char>>)>::empty(),
                }));
            } else {
                assert(blocks(nxt) =~= blocks(pre));
            }
        }
        i = i + 1;
    }
    assert(ls.deep_view().subrange(0, ls.len() as int) =~= ls.deep_view());
    match cur_header {
        Some(ch) => {
            let ghost dv = done.deep_view();
            let ghost chv = ch@;
            let ghost cdv = cur_details.deep_view();
            proof { lemma_chars_deep_view(&ch); }
            done.push((ch, cur_details));
            assert(done.deep_view() =~= dv.push((chv, cdv)));
        },
        None => {
            assert(done.deep_view() =~= blocks(ls.deep_view()));
        },
    }
    done
}

/// `line` begins with `p`.
fn range_starts_with_line(line: &Vec<char>, p: &Vec<char>) -> (b: bool)
    ensures
        b == has_prefix_at(line@, 0, p@),
{
    let b = crate::text::range_starts_with(line, 0, line.len(), p);
    assert(line@.subrange(0, line@.len() as int) =~= line@);
    b
}

impl IssueFile {
    /// Parses an issue file; `today` is the creation date of issues whose date is missing.
    pub fn from_markdown_on(text: &str, today: Date) -> (r: Result<IssueFile, String>)
        ensures
            match (r, parse_issue_file(text@, today)) {
                (Ok(a), Ok(b)) => a@ == b,
                (Err(m), Err(n)) => m@ == n,
                _ => false,
            },
    {
        let cs = str_chars(text);
        let n = cs.len();
        assert(cs@.subrange(0, n as int) =~= cs@);
        let a = crate::text::trim_start_from(&cs, 0, n);
        let ghost t = cs@.subrange(a as int, n as int);
        assert(t == trim_start(text@));
        let dashes = str_chars("---");
        proof { reveal_strlit("---"); }
        let (meta, body_lo, body_hi, body_vec): (Vec<(Vec<char>, Vec<char>)>, usize, usize, bool) =
            if !crate::text::range_starts_with(&cs, a, n, &dashes) {
            (Vec::new(), a, n, true)
        } else {
            let close = str_chars("\n---");
            proof { reveal_strlit("\n---"); }
            let fa = find_at(&cs, a + 3, &close);
            proof {
                crate::text::lemma_find_from_skip(cs@, a + 3, 0, close@);
                assert(cs@.skip(a + 3) =~= t.skip(3));
                crate::text::lemma_find_from_range(cs@, a + 3, close@);
            }
            match fa {
                None => {
                    let mut m: Vec<char> = Vec::new();
                    push_str(&mut m, "no closing --- in frontmatter");
                    return Err(to_string(&m));
                },
                Some(p) => {
                    let e = p - (a + 3);
                    let yl = slice(&cs, a + 3, p);
                    assert(yl@ =~= t.skip(3).take(e as int));
                    let yls = lines_of(&yl);
                    let mp = meta_pairs(&yls);
                    if p + 4 < n {
                        let bs = strip_leading_from(&cs, p + 4, n, '\n');
                        assert(cs@.subrange(p + 4, n as int) =~= t.skip(3).skip(e + 4));
                        (mp, bs, n, true)
                    } else {
                        (mp, n, n, false)
                    }
                },
            }
        };
        let ghost fm = simple_frontmatter(text@);
        assert(fm is Ok);
        assert(meta.deep_view() == fm->Ok_0.0);
        let body = slice(&cs, body_lo, body_hi);
        assert(body@ == fm->Ok_0.1) by {
            if !body_vec {
                assert(body@ =~= Seq::<char>::empty());
            }
        }
        let bl = lines_of(&body);
        let bks = blocks_of(&bl);
        let mut issues: Vec<Issue> = Vec::new();
        let mut i: usize = 0;
        while i < bks.len()
            invariant
                i <= bks.len(),
                issues@.map_values(|x: Issue| x@) == parse_blocks(
                    bks.deep_view().subrange(0, i as int),
                    today,
                ),
            decreases bks.len() - i,
        {
            let ghost pre = bks.deep_view().subrange(0, i as int);
            let ghost nxt = bks.deep_view().subrange(0, i + 1);
            assert(nxt.drop_last() =~= pre);
            let ghost old_is = issues@;
            let bh = &bks[i].0;
            let bd = &bks[i].1;
            proof { lemma_chars_deep_view(bh); }
            assert(nxt.last() == (bh@, bd.deep_view()));
            match parse_issue_block_of(bh, bd, today) {
                Some(iss) => {
                    issues.push(iss);
                    assert(issues@.map_values(|x: Issue| x@) =~= old_is.map_values(|x: Issue| x@).push(issues@.last()@));
                },
                None => {},
            }
            i = i + 1;
        }
        assert(bks.deep_view().subrange(0, bks.len() as int) =~= bks.deep_view());
        let project_slug = match lookup_in(&meta, "project") {
            Some(v) => {
                proof { lemma_chars_deep_view(&v); }
                to_string(&v)
            },
            None => to_string(&Vec::new()),
        };
        let next_id = match lookup_in(&meta, "next_id") {
            Some(v) => {
                proof { lemma_chars_deep_view(&v); }
                let r = parse_u32_range(&v, 0, v.len());
                assert(v@.subrange(0, v@.len() as int) =~= v@);
                match r {
                    Some(k) => k,
                    None => 1,
                }
            },
            None => 1,
        };
        let f = IssueFile { project_slug, next_id, issues };
        assert(f@.project_slug =~= (match lookup(meta.deep_view(), "project"@) {
            Some(v) => v,
            None => Seq::<char>::empty(),
        }));
        Ok(f)
    }

    /// Parses an issue file; issues with no readable creation date get today's date.
    pub fn from_markdown(text: &str) -> (r: Result<IssueFile, String>)
        ensures
            exists|d: Date|
                d.wf() && match (r, #[trigger] parse_issue_file(text@, d)) {
                    (Ok(a), Ok(b)) => a@ == b,
                    (Err(m), Err(n)) => m@ == n,
                    _ => false,
                },
    {
        let d = today();
        let r = IssueFile::from_markdown_on(text, d);
        assert(d.wf());
        r
    }
}

// ── Round trip ───────────────────────────────────────────────────────

/// Text that the issue file format can carry in a `key: value` line: no line break and
/// no white space at either end.
pub open spec fn line_value_ok(s: Seq<char>) -> bool {
    is_trimmed(s) && lacks(s, '\n')
}

pub open spec fn date_ok(d: Date) -> bool {
    d.wf()
}

/// An issue that its markdown form describes exactly.
pub open spec fn issue_wf(i: IssueView) -> bool {
    &&& i.title.len() > 0
    &&& line_value_ok(i.title)
    &&& line_value_ok(i.notes)
    &&& line_value_ok(i.reference)
    &&& date_ok(i.created)
    &&& (i.closed matches Some(c) ==> date_ok(c))
}

/// An issue file that its markdown form describes exactly.
pub open spec fn issue_file_wf(f: IssueFileView) -> bool {
    &&& line_value_ok(f.project_slug)
    &&& forall|k: int| 0 <= k < f.issues.len() ==> issue_wf(#[trigger] f.issues[k])
}

pub(crate) proof fn lemma_run_len_prefix(a: Seq<char>, b: Seq<char>, p: spec_fn(char) -> bool)
    requires
        forall|i: int| 0 <= i < a.len() ==> p(#[trigger] a[i]),
        b.len() == 0 || !p(b[0]),
    ensures
        run_len(a + b, p) == a.len(),
    decreases a.len(),
{
    if a.len() > 0 {
        assert((a + b).drop_first() =~= a.drop_first() + b);
        assert forall|i: int| 0 <= i < a.drop_first().len() implies p(
            #[trigger] a.drop_first()[i],
        ) by {
            assert(a.drop_first()[i] == a[i + 1]);
        }
        assert((a + b)[0] == a[0]);
        lemma_run_len_prefix(a.drop_first(), b, p);
    } else {
        assert(a + b =~= b);
    }
}

pub(crate) proof fn lemma_trim_space_value(v: Seq<char>)
    requires
        is_trimmed(v),
    ensures
        trim(seq![' '] + v) == v,
{
    let sv = seq![' '] + v;
    assert(sv.drop_first() =~= v);
    assert(trim_start(sv) == trim_start(v));
    lemma_trim_trimmed(v);
}

/// `key: value` reads back as the pair.
proof fn lemma_field_line_kv(key: Seq<char>, v: Seq<char>)
    requires
        key.len() >= 1,
        forall|i: int| 0 <= i < key.len() ==> is_key_char(#[trigger] key[i]),
        is_trimmed(v),
    ensures
        field_line(key + seq![':', ' '] + v) == Some((key, v)),
{
    let l = key + seq![':', ' '] + v;
    assert(!is_ws(key[0]));
    assert(l[0] == key[0]);
    let t = trim(l);
    if v.len() == 0 {
        let lc = key + seq![':'];
        assert(l.drop_last() =~= lc);
        assert(is_ws(l.last()));
        assert(trim_end(l) == trim_end(lc));
        assert(lc[0] == key[0]);
        assert(trim_start(l) == l);
        assert(trim_end(lc) == lc);
        assert(t == lc);
        lemma_run_len_prefix(key, seq![':'], |c: char| is_key_char(c));
        assert(lc.skip(key.len() + 1int) =~= Seq::<char>::empty());
        assert(trim(Seq::<char>::empty()) =~= Seq::<char>::empty());
        assert(lc.take(key.len() as int) =~= key);
    } else {
        assert(l.last() == v.last());
        assert(is_trimmed(l));
        lemma_trim_trimmed(l);
        assert(t == l);
        assert(l =~= key + (seq![':', ' '] + v));
        lemma_run_len_prefix(key, seq![':', ' '] + v, |c: char| is_key_char(c));
        assert(l.take(key.len() as int) =~= key);
        assert(l.skip(key.len() + 1int) =~= seq![' '] + v);
        lemma_trim_space_value(v);
    }
}

/// The key literals of the issue format, spelled out.
proof fn lemma_issue_keys()
    ensures
        "status: "@ == "status"@ + seq![':', ' '],
        "parent: "@ == "parent"@ + seq![':', ' '],
        "closed: "@ == "closed"@ + seq![':', ' '],
        "created: "@ == "created"@ + seq![':', ' '],
        "notes: "@ == "notes"@ + seq![':', ' '],
        "ref: "@ == "ref"@ + seq![':', ' '],
        forall|i: int| 0 <= i < "status"@.len() ==> is_key_char(#[trigger] "status"@[i]),
        forall|i: int| 0 <= i < "parent"@.len() ==> is_key_char(#[trigger] "parent"@[i]),
        forall|i: int| 0 <= i < "closed"@.len() ==> is_key_char(#[trigger] "closed"@[i]),
        forall|i: int| 0 <= i < "created"@.len() ==> is_key_char(#[trigger] "created"@[i]),
        forall|i: int| 0 <= i < "notes"@.len() ==> is_key_char(#[trigger] "notes"@[i]),
        forall|i: int| 0 <= i < "ref"@.len() ==> is_key_char(#[trigger] "ref"@[i]),
        "status"@.len() == 6,
        "parent"@.len() == 6,
        "closed"@.len() == 6,
        "created"@.len() == 7,
        "notes"@.len() == 5,
        "ref"@.len() == 3,
        "status"@ != "parent"@,
        "status"@ != "closed"@,
        "parent"@ != "closed"@,
        "status"@[0] == 's',
        "parent"@[0] == 'p',
        "closed"@[0] == 'c',
        "created"@[0] == 'c',
        "notes"@[0] == 'n',
        "ref"@[0] == 'r',
        "closed"@[1] == 'l',
        "created"@[1] == 'r',
{
    reveal_strlit("status: ");
    reveal_strlit("parent: ");
    reveal_strlit("closed: ");
    reveal_strlit("created: ");
    reveal_strlit("notes: ");
    reveal_strlit("ref: ");
    reveal_strlit("status");
    reveal_strlit("parent");
    reveal_strlit("closed");
    reveal_strlit("created");
    reveal_strlit("notes");
    reveal_strlit("ref");
    assert("status: "@ =~= "status"@ + seq![':', ' ']);
    assert("parent: "@ =~= "parent"@ + seq![':', ' ']);
    assert("closed: "@ =~= "closed"@ + seq![':', ' ']);
    assert("created: "@ =~= "created"@ + seq![':', ' ']);
    assert("notes: "@ =~= "notes"@ + seq![':', ' ']);
    assert("ref: "@ =~= "ref"@ + seq![':', ' ']);
    assert("status"@[0] != "parent"@[0]);
    assert("status"@[0] != "closed"@[0]);
    assert("parent"@[0] != "closed"@[0]);
}

proof fn lemma_filter_map_concat<A, B>(a: Seq<A>, b: Seq<A>, f: spec_fn(A) -> Option<B>)
    ensures
        (a + b).filter_map(f) == a.filter_map(f) + b.filter_map(f),
    decreases b.len(),
{
    if b.len() == 0 {
        assert(a + b =~= a);
        assert(a.filter_map(f) + b.filter_map(f) =~= a.filter_map(f));
    } else {
        assert((a + b).drop_last() =~= a + b.drop_last());
        lemma_filter_map_concat(a, b.drop_last(), f);
        assert((a + b).last() == b.last());
        match f(b.last()) {
            Some(x) => {
                assert((a + b).filter_map(f) =~= a.filter_map(f) + b.filter_map(f));
            },
            None => {
                assert((a + b).filter_map(f) =~= a.filter_map(f) + b.filter_map(f));
            },
        }
    }
}

proof fn lemma_filter_map_one<A, B>(x: A, f: spec_fn(A) -> Option<B>)
    ensures
        seq![x].filter_map(f) == (match f(x) {
            Some(b) => seq![b],
            None => Seq::<B>::empty(),
        }),
{
    assert(seq![x].drop_last() =~= Seq::<A>::empty());
    assert(Seq::<A>::empty().filter_map(f) =~= Seq::<B>::empty());
    assert(seq![x].last() == x);
    match f(x) {
        Some(b) => {
            assert(seq![x].filter_map(f) =~= seq![b]);
        },
        None => {},
    }
}

proof fn lemma_lookup_concat(a: Seq<(Seq<char>, Seq<char>)>, b: Seq<(Seq<char>, Seq<char>)>, k: Seq<char>)
    ensures
        lookup(a + b, k) == (match lookup(b, k) {
            Some(v) => Some(v),
            None => lookup(a, k),
        }),
    decreases b.len(),
{
    if b.len() == 0 {
        assert(a + b =~= a);
    } else {
        assert((a + b).drop_last() =~= a + b.drop_last());
        assert((a + b).last() == b.last());
        lemma_lookup_concat(a, b.drop_last(), k);
    }
}

/// The `key: value` pairs that an issue's detail lines carry.
pub open spec fn issue_fields(i: IssueView) -> Seq<(Seq<char>, Seq<char>)> {
    seq![("status"@, issue_status_name(i.status))] + (match i.parent_id {
        Some(p) => seq![("parent"@, dec(p as nat))],
        None => Seq::<(Seq<char>, Seq<char>)>::empty(),
    }) + (match i.closed {
        Some(c) => seq![("closed"@, date_text(c))],
        None => Seq::<(Seq<char>, Seq<char>)>::empty(),
    }) + seq![("created"@, date_text(i.created))] + (if i.notes.len() > 0 {
        seq![("notes"@, i.notes)]
    } else {
        Seq::<(Seq<char>, Seq<char>)>::empty()
    }) + (if i.reference.len() > 0 {
        seq![("ref"@, i.reference)]
    } else {
        Seq::<(Seq<char>, Seq<char>)>::empty()
    })
}

pub(crate) proof fn lemma_year_text_trimmed(d: Date)
    requires
        date_ok(d),
    ensures
        is_trimmed(date_text(d)),
        date_text(d).len() > 0,
{
    let t = date_text(d);
    let n: nat = (if d.year < 0 { -d.year } else { d.year as int }) as nat;
    let y = dec_pad(n, 4);
    lemma_dec_digits(d.day as nat);
    let dd = dec_pad(d.day as nat, 2);
    assert(dd.len() >= 1);
    assert(dd.last() == dec(d.day as nat).last());
    assert(dec(d.day as nat).last() == dec(d.day as nat)[dec(d.day as nat).len() - 1]);
    assert(t.last() == dd.last());
    assert(y.len() >= 1);
    lemma_dec_digits(n);
    if dec(n).len() < 4 {
        assert(y[0] == '0');
    } else {
        assert(y[0] == dec(n)[0]);
    }
    if 0 <= d.year <= 9999 {
        assert(t[0] == y[0]);
    } else {
        assert(t[0] == '-' || t[0] == '+');
    }
}

proof fn lemma_dec_trimmed(n: nat)
    ensures
        is_trimmed(dec(n)),
{
    lemma_dec_digits(n);
    assert(dec(n).last() == dec(n)[dec(n).len() - 1]);
}

proof fn lemma_status_name_trimmed(s: IssueStatus)
    ensures
        is_trimmed(issue_status_name(s)),
{
    reveal_strlit("todo");
    reveal_strlit("active");
    reveal_strlit("blocked");
    reveal_strlit("done");
}

/// The detail lines of a well-formed issue read back as its fields.
proof fn lemma_issue_details(i: IssueView)
    requires
        issue_wf(i),
    ensures
        issue_lines(i).drop_first().filter_map(|l: Seq<char>| field_line(l)) == issue_fields(i),
{
    lemma_issue_keys();
    let f = |l: Seq<char>| field_line(l);
    lemma_status_name_trimmed(i.status);
    lemma_field_line_kv("status"@, issue_status_name(i.status));
    lemma_year_text_trimmed(i.created);
    lemma_field_line_kv("created"@, date_text(i.created));
    let s1: Seq<Seq<char>> = seq!["status: "@ + issue_status_name(i.status)];
    let p1: Seq<Seq<char>> = match i.parent_id {
        Some(p) => seq!["parent: "@ + dec(p as nat)],
        None => Seq::<Seq<char>>::empty(),
    };
    let c1: Seq<Seq<char>> = match i.closed {
        Some(c) => seq!["closed: "@ + date_text(c)],
        None => Seq::<Seq<char>>::empty(),
    };
    let r1: Seq<Seq<char>> = seq!["created: "@ + date_text(i.created)];
    let n1: Seq<Seq<char>> = if i.notes.len() > 0 {
        seq!["notes: "@ + i.notes]
    } else {
        Seq::<Seq<char>>::empty()
    };
    let f1: Seq<Seq<char>> = if i.reference.len() > 0 {
        seq!["ref: "@ + i.reference]
    } else {
        Seq::<Seq<char>>::empty()
    };
    assert(issue_lines(i).drop_first() =~= s1 + p1 + c1 + r1 + n1 + f1);
    lemma_filter_map_concat(s1 + p1 + c1 + r1 + n1, f1, f);
    lemma_filter_map_concat(s1 + p1 + c1 + r1, n1, f);
    lemma_filter_map_concat(s1 + p1 + c1, r1, f);
    lemma_filter_map_concat(s1 + p1, c1, f);
    lemma_filter_map_concat(s1, p1, f);
    assert("status: "@ + issue_status_name(i.status) == "status"@ + seq![':', ' '] + issue_status_name(i.status));
    assert(s1.filter_map(f) =~= seq![("status"@, issue_status_name(i.status))]) by {
        lemma_filter_map_one(s1[0], f);
        assert(s1 =~= seq![s1[0]]);
    }
    assert("created: "@ + date_text(i.created) == "created"@ + seq![':', ' '] + date_text(i.created));
    assert(r1.filter_map(f) =~= seq![("created"@, date_text(i.created))]) by {
        lemma_filter_map_one(r1[0], f);
        assert(r1 =~= seq![r1[0]]);
    }
    match i.parent_id {
        Some(p) => {
            lemma_dec_trimmed(p as nat);
            lemma_field_line_kv("parent"@, dec(p as nat));
            assert("parent: "@ + dec(p as nat) == "parent"@ + seq![':', ' '] + dec(p as nat));
            assert(p1.filter_map(f) =~= seq![("parent"@, dec(p as nat))]) by {
        lemma_filter_map_one(p1[0], f);
        assert(p1 =~= seq![p1[0]]);
    }
        },
        None => {
            assert(p1.filter_map(f) =~= Seq::<(Seq<char>, Seq<char>)>::empty());
        },
    }
    match i.closed {
        Some(c) => {
            lemma_year_text_trimmed(c);
            lemma_field_line_kv("closed"@, date_text(c));
            assert("closed: "@ + date_text(c) == "closed"@ + seq![':', ' '] + date_text(c));
            assert(c1.filter_map(f) =~= seq![("closed"@, date_text(c))]) by {
        lemma_filter_map_one(c1[0], f);
        assert(c1 =~= seq![c1[0]]);
    }
        },
        None => {
            assert(c1.filter_map(f) =~= Seq::<(Seq<char>, Seq<char>)>::empty());
        },
    }
    if i.notes.len() > 0 {
        lemma_field_line_kv("notes"@, i.notes);
        assert("notes: "@ + i.notes == "notes"@ + seq![':', ' '] + i.notes);
        assert(n1.filter_map(f) =~= seq![("notes"@, i.notes)]) by {
        lemma_filter_map_one(n1[0], f);
        assert(n1 =~= seq![n1[0]]);
    }
    } else {
        assert(n1.filter_map(f) =~= Seq::<(Seq<char>, Seq<char>)>::empty());
    }
    if i.reference.len() > 0 {
        lemma_field_line_kv("ref"@, i.reference);
        assert("ref: "@ + i.reference == "ref"@ + seq![':', ' '] + i.reference);
        assert(f1.filter_map(f) =~= seq![("ref"@, i.reference)]) by {
        lemma_filter_map_one(f1[0], f);
        assert(f1 =~= seq![f1[0]]);
    }
    } else {
        assert(f1.filter_map(f) =~= Seq::<(Seq<char>, Seq<char>)>::empty());
    }
    assert(issue_lines(i).drop_first().filter_map(f) =~= issue_fields(i));
}

proof fn lemma_lookup_one(k: Seq<char>, v: Seq<char>, key: Seq<char>)
    ensures
        lookup(seq![(k, v)], key) == (if k == key {
            Some(v)
        } else {
            None::<Seq<char>>
        }),
{
    assert(seq![(k, v)].drop_last() =~= Seq::<(Seq<char>, Seq<char>)>::empty());
    assert(lookup(Seq::<(Seq<char>, Seq<char>)>::empty(), key) == None::<Seq<char>>);
    assert(seq![(k, v)].last() == (k, v));
}

/// Looking up each key in an issue's fields.
proof fn lemma_issue_field_lookups(i: IssueView)
    ensures
        lookup(issue_fields(i), "status"@) == Some(issue_status_name(i.status)),
        lookup(issue_fields(i), "parent"@) == (match i.parent_id {
            Some(p) => Some(dec(p as nat)),
            None => None::<Seq<char>>,
        }),
        lookup(issue_fields(i), "closed"@) == (match i.closed {
            Some(c) => Some(date_text(c)),
            None => None::<Seq<char>>,
        }),
        lookup(issue_fields(i), "created"@) == Some(date_text(i.created)),
        lookup(issue_fields(i), "notes"@) == (if i.notes.len() > 0 {
            Some(i.notes)
        } else {
            None::<Seq<char>>
        }),
        lookup(issue_fields(i), "ref"@) == (if i.reference.len() > 0 {
            Some(i.reference)
        } else {
            None::<Seq<char>>
        }),
{
    lemma_issue_keys();
    let e = Seq::<(Seq<char>, Seq<char>)>::empty();
    let s1 = seq![("status"@, issue_status_name(i.status))];
    let p1 = match i.parent_id {
        Some(p) => seq![("parent"@, dec(p as nat))],
        None => e,
    };
    let c1 = match i.closed {
        Some(c) => seq![("closed"@, date_text(c))],
        None => e,
    };
    let r1 = seq![("created"@, date_text(i.created))];
    let n1 = if i.notes.len() > 0 {
        seq![("notes"@, i.notes)]
    } else {
        e
    };
    let f1 = if i.reference.len() > 0 {
        seq![("ref"@, i.reference)]
    } else {
        e
    };
    assert(issue_fields(i) == s1 + p1 + c1 + r1 + n1 + f1);
    let keys = seq!["status"@, "parent"@, "closed"@, "created"@, "notes"@, "ref"@];
    assert forall|k: int| 0 <= k < 6 implies {
        let key = #[trigger] keys[k];
        lookup(s1 + p1 + c1 + r1 + n1 + f1, key) == (match lookup(f1, key) {
            Some(v) => Some(v),
            None => match lookup(n1, key) {
                Some(v) => Some(v),
                None => match lookup(r1, key) {
                    Some(v) => Some(v),
                    None => match lookup(c1, key) {
                        Some(v) => Some(v),
                        None => match lookup(p1, key) {
                            Some(v) => Some(v),
                            None => lookup(s1, key),
                        },
                    },
                },
            },
        })
    } by {
        let key = keys[k];
        lemma_lookup_concat(s1 + p1 + c1 + r1 + n1, f1, key);
        lemma_lookup_concat(s1 + p1 + c1 + r1, n1, key);
        lemma_lookup_concat(s1 + p1 + c1, r1, key);
        lemma_lookup_concat(s1 + p1, c1, key);
        lemma_lookup_concat(s1, p1, key);
    }
    assert forall|k: int| 0 <= k < 6 implies {
        let key = #[trigger] keys[k];
        &&& lookup(s1, key) == (if key == "status"@ { Some(issue_status_name(i.status)) } else { None::<Seq<char>> })
        &&& lookup(r1, key) == (if key == "created"@ { Some(date_text(i.created)) } else { None::<Seq<char>> })
        &&& lookup(e, key) == None::<Seq<char>>
    } by {
        let key = keys[k];
        lemma_lookup_one("status"@, issue_status_name(i.status), key);
        lemma_lookup_one("created"@, date_text(i.created), key);
    }
    match i.parent_id {
        Some(p) => {
            lemma_lookup_one("parent"@, dec(p as nat), "status"@);
            lemma_lookup_one("parent"@, dec(p as nat), "parent"@);
            lemma_lookup_one("parent"@, dec(p as nat), "closed"@);
            lemma_lookup_one("parent"@, dec(p as nat), "created"@);
            lemma_lookup_one("parent"@, dec(p as nat), "notes"@);
            lemma_lookup_one("parent"@, dec(p as nat), "ref"@);
        },
        None => {},
    }
    match i.closed {
        Some(c) => {
            lemma_lookup_one("closed"@, date_text(c), "status"@);
            lemma_lookup_one("closed"@, date_text(c), "parent"@);
            lemma_lookup_one("closed"@, date_text(c), "closed"@);
            lemma_lookup_one("closed"@, date_text(c), "created"@);
            lemma_lookup_one("closed"@, date_text(c), "notes"@);
            lemma_lookup_one("closed"@, date_text(c), "ref"@);
        },
        None => {},
    }
    if i.notes.len() > 0 {
        lemma_lookup_one("notes"@, i.notes, "status"@);
        lemma_lookup_one("notes"@, i.notes, "parent"@);
        lemma_lookup_one("notes"@, i.notes, "closed"@);
        lemma_lookup_one("notes"@, i.notes, "created"@);
        lemma_lookup_one("notes"@, i.notes, "notes"@);
        lemma_lookup_one("notes"@, i.notes, "ref"@);
    }
    if i.reference.len() > 0 {
        lemma_lookup_one("ref"@, i.reference, "status"@);
        lemma_lookup_one("ref"@, i.reference, "parent"@);
        lemma_lookup_one("ref"@, i.reference, "closed"@);
        lemma_lookup_one("ref"@, i.reference, "created"@);
        lemma_lookup_one("ref"@, i.reference, "notes"@);
        lemma_lookup_one("ref"@, i.reference, "ref"@);
    }
    assert(keys[0] == "status"@);
    assert(keys[1] == "parent"@);
    assert(keys[2] == "closed"@);
    assert(keys[3] == "created"@);
    assert(keys[4] == "notes"@);
    assert(keys[5] == "ref"@);
}

/// The header line of a well-formed issue starts an issue and reads back as its number and
/// title.
proof fn lemma_issue_header(i: IssueView)
    requires
        issue_wf(i),
    ensures
        is_issue_header(issue_lines(i)[0]),
        header_match(trim(issue_lines(i)[0].skip(3))) == Some((dec(i.id as nat), i.title)),
        issue_lines(i)[0].len() > 0,
        lacks(issue_lines(i)[0], '\n'),
        issue_lines(i)[0].last() != '\r',
{
    reveal_strlit("## #");
    reveal_strlit(" ");
    let d = dec(i.id as nat);
    let l0 = "## #"@ + d + " "@ + i.title;
    assert(issue_lines(i)[0] == l0);
    lemma_dec_digits(i.id as nat);
    assert(l0.subrange(0, 4) =~= "## #"@);
    let h = l0.skip(3);
    assert(h =~= seq!['#'] + d + seq![' '] + i.title);
    assert(h[0] == '#');
    assert(h.last() == i.title.last());
    assert(is_trimmed(h));
    lemma_trim_trimmed(h);
    assert(h.skip(1) =~= d + (seq![' '] + i.title));
    lemma_run_len_prefix(d, seq![' '] + i.title, |c: char| is_digit(c));
    let j: int = 1 + d.len() as int;
    assert(h.skip(j) =~= seq![' '] + i.title);
    assert(!is_ws(i.title[0]));
    lemma_run_len_prefix(seq![' '], i.title, |c: char| is_ws(c));
    assert(h.subrange(1, j) =~= d);
    assert(h.skip(j + 1) =~= i.title);
    assert forall|k: int| 0 <= k < l0.len() implies #[trigger] l0[k] != '\n' by {
        if k >= 4 + d.len() + 1 {
            assert(l0[k] == i.title[k - (4 + d.len() + 1)]);
        } else if k >= 4 && k < 4 + d.len() {
            assert(l0[k] == d[k - 4]);
        }
    }
    assert(l0.last() == i.title.last());
}

/// A well-formed issue's lines, followed by lines that carry no field, read back as the issue.
proof fn lemma_issue_block(i: IssueView, extra: Seq<Seq<char>>, today: Date)
    requires
        issue_wf(i),
        extra.filter_map(|l: Seq<char>| field_line(l)).len() == 0,
        chrono_parse_ymd(date_text(i.created)) == Some(i.created),
        i.closed matches Some(c) ==> chrono_parse_ymd(date_text(c)) == Some(c),
    ensures
        parse_issue_block(trim(issue_lines(i)[0].skip(3)), issue_lines(i).drop_first() + extra, today)
            == Some(i),
{
    lemma_issue_header(i);
    lemma_issue_details(i);
    let f = |l: Seq<char>| field_line(l);
    lemma_filter_map_concat(issue_lines(i).drop_first(), extra, f);
    assert((issue_lines(i).drop_first() + extra).filter_map(f) =~= issue_fields(i));
    lemma_issue_field_lookups(i);
    crate::text::lemma_parse_u32_dec(i.id);
    crate::status::lemma_issue_status_parse_name(i.status);
    match i.parent_id {
        Some(p) => {
            crate::text::lemma_parse_u32_dec(p);
        },
        None => {},
    }
    lemma_trim_trimmed(i.title);
    let r = parse_issue_block(trim(issue_lines(i)[0].skip(3)), issue_lines(i).drop_first() + extra, today);
    assert(r matches Some(x) && x.notes == i.notes && x.reference == i.reference);
}

proof fn lemma_blocks_concat(a: Seq<Seq<char>>, b: Seq<Seq<char>>)
    requires
        b.len() > 0,
        is_issue_header(b[0]),
    ensures
        blocks(a + b) == blocks(a) + blocks(b),
    decreases b.len(),
{
    if b.len() == 1 {
        assert((a + b).drop_last() =~= a);
        assert(b.drop_last() =~= Seq::<Seq<char>>::empty());
        assert(blocks(b.drop_last()) =~= Seq::<(Seq<char>, Seq<Seq<char>>)>::empty());
        assert((a + b).last() == b[0]);
        assert(blocks(a + b) =~= blocks(a) + blocks(b));
    } else {
        let b0 = b.drop_last();
        assert((a + b).drop_last() =~= a + b0);
        assert(b0[0] == b[0]);
        lemma_blocks_concat(a, b0);
        lemma_blocks_nonempty(b0);
        assert((a + b).last() == b.last());
        let x = blocks(a);
        let y = blocks(b0);
        if is_issue_header(b.last()) {
            assert(blocks(a + b) =~= blocks(a) + blocks(b));
        } else {
            assert((x + y).last() == y.last());
            assert((x + y).update((x + y).len() - 1, ((x + y).last().0, (x + y).last().1.push(
                b.last(),
            ))) =~= x + y.update(y.len() - 1, (y.last().0, y.last().1.push(b.last()))));
            assert(blocks(a + b) =~= blocks(a) + blocks(b));
        }
    }
}

proof fn lemma_blocks_nonempty(b: Seq<Seq<char>>)
    requires
        b.len() > 0,
        is_issue_header(b[0]),
    ensures
        blocks(b).len() > 0,
    decreases b.len(),
{
    if b.len() > 1 {
        assert(b.drop_last()[0] == b[0]);
        lemma_blocks_nonempty(b.drop_last());
    } else {
        assert(b.last() == b[0]);
    }
}

/// A header line and the non-header lines after it form one block.
proof fn lemma_blocks_single(h: Seq<char>, ds: Seq<Seq<char>>)
    requires
        is_issue_header(h),
        forall|k: int| 0 <= k < ds.len() ==> !is_issue_header(#[trigger] ds[k]),
    ensures
        blocks(seq![h] + ds) == seq![(trim(h.skip(3)), ds)],
    decreases ds.len(),
{
    if ds.len() == 0 {
        assert(seq![h] + ds =~= seq![h]);
        assert(seq![h].drop_last() =~= Seq::<Seq<char>>::empty());
        assert(blocks(Seq::<Seq<char>>::empty()) == Seq::<(Seq<char>, Seq<Seq<char>>)>::empty());
        assert(seq![h].last() == h);
        assert(ds =~= Seq::<Seq<char>>::empty());
        assert(blocks(seq![h]) =~= seq![(trim(h.skip(3)), ds)]);
    } else {
        let d0 = ds.drop_last();
        assert forall|k: int| 0 <= k < d0.len() implies !is_issue_header(#[trigger] d0[k]) by {
            assert(d0[k] == ds[k]);
        }
        lemma_blocks_single(h, d0);
        assert((seq![h] + ds).drop_last() =~= seq![h] + d0);
        assert((seq![h] + ds).last() == ds[ds.len() - 1]);
        assert(!is_issue_header(ds[ds.len() - 1]));
        assert(d0.push(ds.last()) =~= ds);
        let b = blocks(seq![h] + d0);
        assert(b == seq![(trim(h.skip(3)), d0)]);
        assert(b.update(b.len() - 1, (b.last().0, b.last().1.push(ds.last()))) =~= seq![
            (trim(h.skip(3)), ds),
        ]);
        assert(blocks(seq![h] + ds) =~= seq![(trim(h.skip(3)), ds)]);
    }
}

/// The lines of the issues' text after the first newline: each issue's lines, with an
/// empty line between issues.
pub open spec fn body_lines(is: Seq<IssueView>) -> Seq<Seq<char>>
    decreases is.len(),
{
    if is.len() == 0 {
        Seq::<Seq<char>>::empty()
    } else if is.len() == 1 {
        issue_lines(is[0])
    } else {
        body_lines(is.drop_last()) + seq![Seq::<char>::empty()] + issue_lines(is.last())
    }
}

proof fn lemma_issues_text_body(is: Seq<IssueView>)
    requires
        is.len() > 0,
    ensures
        issues_text(is) == seq!['\n'] + terminated(body_lines(is)),
    decreases is.len(),
{
    if is.len() == 1 {
        assert(is.drop_last() =~= Seq::<IssueView>::empty());
        assert(is.last() == is[0]);
        assert(issues_text(is.drop_last()) == Seq::<char>::empty());
        assert(issues_text(is) == issue_text(is[0]));
        assert(issues_text(is) =~= seq!['\n'] + terminated(body_lines(is)));
    } else {
        let p = is.drop_last();
        lemma_issues_text_body(p);
        crate::text::lemma_terminated_concat(body_lines(p), seq![Seq::<char>::empty()]);
        crate::text::lemma_terminated_concat(
            body_lines(p) + seq![Seq::<char>::empty()],
            issue_lines(is.last()),
        );
        let e = seq![Seq::<char>::empty()];
        assert(e.drop_last() =~= Seq::<Seq<char>>::empty());
        assert(terminated(Seq::<Seq<char>>::empty()) == Seq::<char>::empty());
        assert(e.last() == Seq::<char>::empty());
        assert(terminated(e) =~= seq!['\n']);
        assert(issues_text(is) =~= seq!['\n'] + terminated(body_lines(is)));
    }
}

/// The detail lines of issue `k` of `n`, with the separating empty line after all but the last.
pub open spec fn block_details(i: IssueView, k: int, n: int) -> Seq<Seq<char>> {
    issue_lines(i).drop_first() + (if k < n - 1 {
        seq![Seq::<char>::empty()]
    } else {
        Seq::<Seq<char>>::empty()
    })
}

pub open spec fn no_headers(ls: Seq<Seq<char>>) -> bool {
    forall|k: int| 0 <= k < ls.len() ==> !is_issue_header(#[trigger] ls[k])
}

proof fn lemma_no_headers_concat(a: Seq<Seq<char>>, b: Seq<Seq<char>>)
    requires
        no_headers(a),
        no_headers(b),
    ensures
        no_headers(a + b),
{
    assert forall|k: int| 0 <= k < (a + b).len() implies !is_issue_header(#[trigger] (a + b)[k]) by {
        if k < a.len() {
            assert((a + b)[k] == a[k]);
        } else {
            assert((a + b)[k] == b[k - a.len()]);
        }
    }
}

proof fn lemma_keyed_not_header(key: Seq<char>, v: Seq<char>)
    requires
        key.len() > 0,
        key[0] != '#',
    ensures
        no_headers(seq![key + v]),
{
    reveal_strlit("## #");
    let l = key + v;
    assert(l[0] == key[0]);
    assert(seq![l][0] == l);
    if l.len() >= 4 {
        assert(l.subrange(0, 4)[0] == l[0]);
        assert("## #"@[0] == '#');
        assert(l.subrange(0, 4) != "## #"@);
    }
    assert(!is_issue_header(l));
}

/// No detail line of an issue starts an issue.
proof fn lemma_details_not_header(i: IssueView)
    ensures
        no_headers(issue_lines(i).drop_first()),
{
    reveal_strlit("status: ");
    reveal_strlit("parent: ");
    reveal_strlit("closed: ");
    reveal_strlit("created: ");
    reveal_strlit("notes: ");
    reveal_strlit("ref: ");
    let e = Seq::<Seq<char>>::empty();
    let s1: Seq<Seq<char>> = seq!["status: "@ + issue_status_name(i.status)];
    let p1: Seq<Seq<char>> = match i.parent_id {
        Some(p) => seq!["parent: "@ + dec(p as nat)],
        None => e,
    };
    let c1: Seq<Seq<char>> = match i.closed {
        Some(c) => seq!["closed: "@ + date_text(c)],
        None => e,
    };
    let r1: Seq<Seq<char>> = seq!["created: "@ + date_text(i.created)];
    let n1: Seq<Seq<char>> = if i.notes.len() > 0 {
        seq!["notes: "@ + i.notes]
    } else {
        e
    };
    let f1: Seq<Seq<char>> = if i.reference.len() > 0 {
        seq!["ref: "@ + i.reference]
    } else {
        e
    };
    assert(issue_lines(i).drop_first() =~= s1 + p1 + c1 + r1 + n1 + f1);
    assert(no_headers(e));
    lemma_keyed_not_header("status: "@, issue_status_name(i.status));
    lemma_keyed_not_header("created: "@, date_text(i.created));
    match i.parent_id {
        Some(p) => lemma_keyed_not_header("parent: "@, dec(p as nat)),
        None => {},
    }
    match i.closed {
        Some(c) => lemma_keyed_not_header("closed: "@, date_text(c)),
        None => {},
    }
    if i.notes.len() > 0 {
        lemma_keyed_not_header("notes: "@, i.notes);
    }
    if i.reference.len() > 0 {
        lemma_keyed_not_header("ref: "@, i.reference);
    }
    lemma_no_headers_concat(s1, p1);
    lemma_no_headers_concat(s1 + p1, c1);
    lemma_no_headers_concat(s1 + p1 + c1, r1);
    lemma_no_headers_concat(s1 + p1 + c1 + r1, n1);
    lemma_no_headers_concat(s1 + p1 + c1 + r1 + n1, f1);
}

#[verifier::spinoff_prover]
#[verifier::rlimit(80)]
proof fn lemma_body_blocks(is: Seq<IssueView>)
    requires
        forall|k: int| 0 <= k < is.len() ==> issue_wf(#[trigger] is[k]),
    ensures
        blocks(body_lines(is)) == Seq::new(
            is.len(),
            |k: int| (trim(issue_lines(is[k])[0].skip(3)), block_details(is[k], k, is.len() as int)),
        ),
    decreases is.len(),
{
    let n = is.len() as int;
    if is.len() == 0 {
        assert(blocks(body_lines(is)) =~= Seq::new(
            is.len(),
            |k: int| (trim(issue_lines(is[k])[0].skip(3)), block_details(is[k], k, n)),
        ));
    } else {
        let last = is.last();
        lemma_issue_header(last);
        let ll = issue_lines(last);
        assert(ll =~= seq![ll[0]] + ll.drop_first());
        lemma_details_not_header(last);
        lemma_blocks_single(ll[0], ll.drop_first());
        if is.len() == 1 {
            assert(is[0] == last);
            assert(blocks(body_lines(is)) =~= Seq::new(
                is.len(),
                |k: int| (trim(issue_lines(is[k])[0].skip(3)), block_details(is[k], k, n)),
            ));
        } else {
            let p = is.drop_last();
            assert forall|k: int| 0 <= k < p.len() implies issue_wf(#[trigger] p[k]) by {
                assert(p[k] == is[k]);
            }
            lemma_body_blocks(p);
            let e = seq![Seq::<char>::empty()];
            let bp = body_lines(p);
            assert(body_lines(is) == bp + e + ll);
            assert(bp + e + ll =~= (bp + e) + ll);
            lemma_blocks_concat(bp + e, ll);
            assert((bp + e).drop_last() =~= bp);
            assert((bp + e).last() == Seq::<char>::empty());
            reveal_strlit("## #");
            assert(!is_issue_header(Seq::<char>::empty()));
            let bb = blocks(bp);
            assert(bb.len() == p.len());
            assert(blocks(bp + e) == bb.update(bb.len() - 1, (bb.last().0, bb.last().1.push(
                Seq::<char>::empty(),
            ))));
            let want = Seq::new(
                is.len(),
                |k: int| (trim(issue_lines(is[k])[0].skip(3)), block_details(is[k], k, n)),
            );
            assert forall|k: int| 0 <= k < n implies #[trigger] blocks(body_lines(is))[k] == want[k] by {
                if k < n - 1 {
                    assert(p[k] == is[k]);
                    if k == n - 2 {
                        assert(block_details(is[k], k, n) =~= block_details(p[k], k, n - 1).push(
                            Seq::<char>::empty(),
                        ));
                    } else {
                        assert(block_details(is[k], k, n) =~= block_details(p[k], k, n - 1));
                    }
                } else {
                    assert(block_details(is[k], k, n) =~= ll.drop_first());
                }
            }
            assert(blocks(body_lines(is)) =~= want);
        }
    }
}

/// Blocks that each read back as the matching issue read back as those issues.
proof fn lemma_parse_blocks_each(bs: Seq<(Seq<char>, Seq<Seq<char>>)>, is: Seq<IssueView>, today: Date)
    requires
        bs.len() == is.len(),
        forall|k: int|
            0 <= k < bs.len() ==> parse_issue_block(#[trigger] bs[k].0, bs[k].1, today) == Some(
                is[k],
            ),
    ensures
        parse_blocks(bs, today) == is,
    decreases bs.len(),
{
    if bs.len() > 0 {
        let b0 = bs.drop_last();
        let i0 = is.drop_last();
        assert forall|k: int| 0 <= k < b0.len() implies parse_issue_block(
            #[trigger] b0[k].0,
            b0[k].1,
            today,
        ) == Some(i0[k]) by {
            assert(b0[k] == bs[k]);
            assert(i0[k] == is[k]);
        }
        lemma_parse_blocks_each(b0, i0, today);
        assert(bs.last() == bs[bs.len() - 1]);
        assert(is =~= i0.push(is.last()));
    } else {
        assert(is =~= Seq::<IssueView>::empty());
    }
}

/// A line that `lines` hands back unchanged: no newline, and no `\r` at its end.
pub open spec fn line_ok(l: Seq<char>) -> bool {
    lacks(l, '\n') && (l.len() == 0 || l.last() != '\r')
}

pub open spec fn all_lines_ok(ls: Seq<Seq<char>>) -> bool {
    forall|k: int| 0 <= k < ls.len() ==> line_ok(#[trigger] ls[k])
}

proof fn lemma_all_lines_ok_concat(a: Seq<Seq<char>>, b: Seq<Seq<char>>)
    requires
        all_lines_ok(a),
        all_lines_ok(b),
    ensures
        all_lines_ok(a + b),
{
    assert forall|k: int| 0 <= k < (a + b).len() implies line_ok(#[trigger] (a + b)[k]) by {
        if k < a.len() {
            assert((a + b)[k] == a[k]);
        } else {
            assert((a + b)[k] == b[k - a.len()]);
        }
    }
}

pub(crate) proof fn lemma_lacks_concat(a: Seq<char>, b: Seq<char>, c: char)
    requires
        lacks(a, c),
        lacks(b, c),
    ensures
        lacks(a + b, c),
{
    assert forall|k: int| 0 <= k < (a + b).len() implies #[trigger] (a + b)[k] != c by {
        if k < a.len() {
            assert((a + b)[k] == a[k]);
        } else {
            assert((a + b)[k] == b[k - a.len()]);
        }
    }
}

pub(crate) proof fn lemma_dec_pad_lacks(n: nat, w: nat)
    ensures
        lacks(dec_pad(n, w), '\n'),
        dec_pad(n, w).len() > 0,
        dec_pad(n, w).last() != '\r',
{
    lemma_dec_digits(n);
    crate::text::lemma_dec_lacks(n, '\n');
    let pad = Seq::new(
        (if dec(n).len() < w {
            w - dec(n).len()
        } else {
            0
        }) as nat,
        |i: int| '0',
    );
    assert(lacks(pad, '\n'));
    lemma_lacks_concat(pad, dec(n), '\n');
    assert(dec_pad(n, w).last() == dec(n).last());
    assert(dec(n).last() == dec(n)[dec(n).len() - 1]);
}

pub(crate) proof fn lemma_date_text_lacks(d: Date)
    ensures
        lacks(date_text(d), '\n'),
{
    lemma_dec_pad_lacks(d.month as nat, 2);
    lemma_dec_pad_lacks(d.day as nat, 2);
    let y = d.year as int;
    if 0 <= y <= 9999 {
        lemma_dec_pad_lacks(y as nat, 4);
    } else if y < 0 {
        lemma_dec_pad_lacks((-y) as nat, 4);
        lemma_lacks_concat(seq!['-'], dec_pad((-y) as nat, 4), '\n');
    } else {
        lemma_dec_pad_lacks(y as nat, 4);
        lemma_lacks_concat(seq!['+'], dec_pad(y as nat, 4), '\n');
    }
    let yt = crate::date::year_text(y);
    lemma_lacks_concat(yt, seq!['-'], '\n');
    lemma_lacks_concat(yt + seq!['-'], dec_pad(d.month as nat, 2), '\n');
    lemma_lacks_concat(yt + seq!['-'] + dec_pad(d.month as nat, 2), seq!['-'], '\n');
    lemma_lacks_concat(
        yt + seq!['-'] + dec_pad(d.month as nat, 2) + seq!['-'],
        dec_pad(d.day as nat, 2),
        '\n',
    );
}

proof fn lemma_keyed_line_ok(key: Seq<char>, v: Seq<char>)
    requires
        lacks(key, '\n'),
        key.len() > 0,
        key.last() != '\r',
        line_value_ok(v),
    ensures
        all_lines_ok(seq![key + v]),
{
    lemma_lacks_concat(key, v, '\n');
    let l = key + v;
    if v.len() > 0 {
        assert(l.last() == v.last());
        assert(!is_ws(v.last()));
    } else {
        assert(l.last() == key.last());
    }
    assert(seq![l][0] == l);
}

proof fn lemma_issue_lines_ok(i: IssueView)
    requires
        issue_wf(i),
    ensures
        all_lines_ok(issue_lines(i)),
{
    reveal_strlit("status: ");
    reveal_strlit("parent: ");
    reveal_strlit("closed: ");
    reveal_strlit("created: ");
    reveal_strlit("notes: ");
    reveal_strlit("ref: ");
    lemma_issue_header(i);
    let e = Seq::<Seq<char>>::empty();
    let h1: Seq<Seq<char>> = seq![issue_lines(i)[0]];
    let s1: Seq<Seq<char>> = seq!["status: "@ + issue_status_name(i.status)];
    let p1: Seq<Seq<char>> = match i.parent_id {
        Some(p) => seq!["parent: "@ + dec(p as nat)],
        None => e,
    };
    let c1: Seq<Seq<char>> = match i.closed {
        Some(c) => seq!["closed: "@ + date_text(c)],
        None => e,
    };
    let r1: Seq<Seq<char>> = seq!["created: "@ + date_text(i.created)];
    let n1: Seq<Seq<char>> = if i.notes.len() > 0 {
        seq!["notes: "@ + i.notes]
    } else {
        e
    };
    let f1: Seq<Seq<char>> = if i.reference.len() > 0 {
        seq!["ref: "@ + i.reference]
    } else {
        e
    };
    assert(issue_lines(i) =~= h1 + s1 + p1 + c1 + r1 + n1 + f1);
    assert(all_lines_ok(e));
    assert(all_lines_ok(h1)) by {
        assert(h1[0] == issue_lines(i)[0]);
    }
    lemma_status_name_trimmed(i.status);
    reveal_strlit("todo");
    reveal_strlit("active");
    reveal_strlit("blocked");
    reveal_strlit("done");
    assert(lacks(issue_status_name(i.status), '\n'));
    lemma_keyed_line_ok("status: "@, issue_status_name(i.status));
    lemma_year_text_trimmed(i.created);
    lemma_date_text_lacks(i.created);
    lemma_keyed_line_ok("created: "@, date_text(i.created));
    match i.parent_id {
        Some(p) => {
            lemma_dec_trimmed(p as nat);
            crate::text::lemma_dec_lacks(p as nat, '\n');
            lemma_keyed_line_ok("parent: "@, dec(p as nat));
        },
        None => {},
    }
    match i.closed {
        Some(c) => {
            lemma_year_text_trimmed(c);
            lemma_date_text_lacks(c);
            lemma_keyed_line_ok("closed: "@, date_text(c));
        },
        None => {},
    }
    if i.notes.len() > 0 {
        lemma_keyed_line_ok("notes: "@, i.notes);
    }
    if i.reference.len() > 0 {
        lemma_keyed_line_ok("ref: "@, i.reference);
    }
    lemma_all_lines_ok_concat(h1, s1);
    lemma_all_lines_ok_concat(h1 + s1, p1);
    lemma_all_lines_ok_concat(h1 + s1 + p1, c1);
    lemma_all_lines_ok_concat(h1 + s1 + p1 + c1, r1);
    lemma_all_lines_ok_concat(h1 + s1 + p1 + c1 + r1, n1);
    lemma_all_lines_ok_concat(h1 + s1 + p1 + c1 + r1 + n1, f1);
}

proof fn lemma_body_lines_ok(is: Seq<IssueView>)
    requires
        forall|k: int| 0 <= k < is.len() ==> issue_wf(#[trigger] is[k]),
    ensures
        all_lines_ok(body_lines(is)),
        is.len() > 0 ==> body_lines(is).len() > 0 && body_lines(is)[0] == issue_lines(is[0])[0],
    decreases is.len(),
{
    if is.len() == 1 {
        lemma_issue_lines_ok(is[0]);
    } else if is.len() > 1 {
        let p = is.drop_last();
        assert forall|k: int| 0 <= k < p.len() implies issue_wf(#[trigger] p[k]) by {
            assert(p[k] == is[k]);
        }
        lemma_body_lines_ok(p);
        lemma_issue_lines_ok(is.last());
        let e = seq![Seq::<char>::empty()];
        assert(all_lines_ok(e)) by {
            assert(e[0] == Seq::<char>::empty());
        }
        lemma_all_lines_ok_concat(body_lines(p), e);
        lemma_all_lines_ok_concat(body_lines(p) + e, issue_lines(is.last()));
        assert(p[0] == is[0]);
    }
}

/// The first position of `p` in `s`, when `p` occurs at `e` and nowhere before it.
proof fn lemma_find_first(s: Seq<char>, from: int, e: int, p: Seq<char>)
    requires
        0 <= from <= e,
        e + p.len() <= s.len(),
        s.subrange(e, e + p.len()) == p,
        forall|k: int| from <= k < e ==> #[trigger] s.subrange(k, k + p.len()) != p,
    ensures
        find_from(s, from, p) == Some(e),
    decreases e - from,
{
    if from < e {
        assert(s.subrange(from, from + p.len()) != p);
        lemma_find_first(s, from + 1, e, p);
    }
}

proof fn lemma_strip_leading_two(x: Seq<char>)
    requires
        x.len() > 0,
        x[0] != '\n',
    ensures
        strip_leading(seq!['\n', '\n'] + x, '\n') == x,
{
    let s2 = seq!['\n', '\n'] + x;
    assert(s2.drop_first() =~= seq!['\n'] + x);
    assert((seq!['\n'] + x).drop_first() =~= x);
    assert(s2[0] == '\n');
    assert((seq!['\n'] + x)[0] == '\n');
    assert(strip_leading(x, '\n') == x);
    assert(strip_leading(seq!['\n'] + x, '\n') == strip_leading(x, '\n'));
    assert(strip_leading(s2, '\n') == strip_leading(seq!['\n'] + x, '\n'));
}

proof fn lemma_split_two_lines(a: Seq<char>, b: Seq<char>)
    requires
        lacks(a, '\n'),
        lacks(b, '\n'),
    ensures
        split_on(seq!['\n'] + a + seq!['\n'] + b, '\n') == seq![Seq::<char>::empty(), a, b],
{
    let e = Seq::<char>::empty();
    let n1 = seq!['\n'];
    assert(e + n1 =~= n1);
    assert(n1.drop_last() =~= e);
    assert(split_on(e, '\n') =~= seq![e]);
    assert(split_on(n1, '\n') =~= seq![e, e]);
    crate::text::lemma_split_on_append_pub(n1, a, '\n');
    assert(split_on(n1 + a, '\n') =~= seq![e, a]);
    assert((n1 + a + n1).drop_last() =~= n1 + a);
    assert((n1 + a + n1).last() == '\n');
    assert(split_on(n1 + a + n1, '\n') =~= seq![e, a, e]);
    crate::text::lemma_split_on_append_pub(n1 + a + n1, b, '\n');
    assert(split_on(n1 + a + n1 + b, '\n') =~= seq![e, a, b]);
}

/// The frontmatter line `key: value` reads back as the pair.
proof fn lemma_meta_line_kv(key: Seq<char>, v: Seq<char>)
    requires
        key.len() > 0,
        !is_ws(key[0]),
        !is_ws(key.last()),
        lacks(key, ':'),
        is_trimmed(v),
    ensures
        meta_line(key + seq![':', ' '] + v) == Some((key, v)),
{
    let l = key + seq![':', ' '] + v;
    let t = trim(l);
    assert(l[0] == key[0]);
    let t2 = if v.len() == 0 {
        key + seq![':']
    } else {
        l
    };
    if v.len() == 0 {
        assert(l.drop_last() =~= t2);
        assert(trim_end(l) == trim_end(t2));
        assert(t2[0] == key[0]);
        assert(trim_start(l) == l);
        assert(trim_end(t2) == t2);
    } else {
        assert(l.last() == v.last());
        lemma_trim_trimmed(l);
    }
    assert(t == t2);
    assert(t2.subrange(key.len() as int, key.len() + 1int) =~= seq![':']);
    assert forall|k: int| 0 <= k < key.len() implies #[trigger] t2.subrange(k, k + 1) != seq![':'] by {
        assert(t2.subrange(k, k + 1)[0] == key[k]);
    }
    lemma_find_first(t2, 0, key.len() as int, seq![':']);
    assert(t2.take(key.len() as int) =~= key);
    lemma_trim_trimmed(key);
    if v.len() == 0 {
        assert(t2.skip(key.len() + 1int) =~= Seq::<char>::empty());
    } else {
        assert(t2.skip(key.len() + 1int) =~= seq![' '] + v);
        lemma_trim_space_value(v);
    }
}

proof fn lemma_meta_of_head(slug: Seq<char>, d: Seq<char>)
    requires
        line_value_ok(slug),
        d.len() > 0,
        lacks(d, '\n'),
        is_trimmed(d),
    ensures
        lines(seq!['\n'] + ("project"@ + seq![':', ' '] + slug) + seq!['\n'] + ("next_id"@ + seq![
            ':',
            ' ',
        ] + d)).filter_map(|l: Seq<char>| meta_line(l)) == seq![("project"@, slug), ("next_id"@, d)],
{
    reveal_strlit("project");
    reveal_strlit("next_id");
    let p1 = "project"@ + seq![':', ' '] + slug;
    let p2 = "next_id"@ + seq![':', ' '] + d;
    let e = Seq::<char>::empty();
    lemma_lacks_concat("project"@ + seq![':', ' '], slug, '\n');
    lemma_lacks_concat("next_id"@ + seq![':', ' '], d, '\n');
    lemma_split_two_lines(p1, p2);
    let block = seq!['\n'] + p1 + seq!['\n'] + p2;
    assert(block.last() == d.last());
    assert(d.last() == d[d.len() - 1]);
    assert(block.last() != '\n');
    if slug.len() > 0 {
        assert(p1.last() == slug.last());
    } else {
        assert(p1.last() == ' ');
    }
    assert(lines(block) =~= seq![e, p1, p2]);
    let f = |l: Seq<char>| meta_line(l);
    assert(trim(e) == e);
    assert(meta_line(e) == None::<(Seq<char>, Seq<char>)>);
    lemma_meta_line_kv("project"@, slug);
    lemma_meta_line_kv("next_id"@, d);
    assert(seq![e, p1, p2] =~= seq![e] + seq![p1] + seq![p2]);
    lemma_filter_map_concat(seq![e] + seq![p1], seq![p2], f);
    lemma_filter_map_concat(seq![e], seq![p1], f);
    lemma_filter_map_one(e, f);
    lemma_filter_map_one(p1, f);
    lemma_filter_map_one(p2, f);
    assert(lines(block).filter_map(f) =~= seq![("project"@, slug), ("next_id"@, d)]);
}

/// The issues' body text reads back as the issues.
proof fn lemma_body_round_trip(is: Seq<IssueView>, today: Date)
    requires
        forall|k: int| 0 <= k < is.len() ==> issue_wf(#[trigger] is[k]),
        forall|k: int|
            0 <= k < is.len() ==> {
                &&& chrono_parse_ymd(date_text(#[trigger] is[k].created)) == Some(is[k].created)
                &&& (is[k].closed matches Some(c) ==> chrono_parse_ymd(date_text(c)) == Some(c))
            },
    ensures
        parse_blocks(blocks(lines(strip_leading(seq!['\n'] + issues_text(is), '\n'))), today) == is,
{
    if is.len() == 0 {
        assert(issues_text(is) == Seq::<char>::empty());
        let n1 = seq!['\n'];
        assert(seq!['\n'] + issues_text(is) =~= n1);
        assert(n1.drop_first() =~= Seq::<char>::empty());
        assert(strip_leading(n1, '\n') == strip_leading(Seq::<char>::empty(), '\n'));
        assert(lines(Seq::<char>::empty()) =~= Seq::<Seq<char>>::empty());
        assert(blocks(Seq::<Seq<char>>::empty()) =~= Seq::<(Seq<char>, Seq<Seq<char>>)>::empty());
        assert(is =~= Seq::<IssueView>::empty());
    } else {
        lemma_issues_text_body(is);
        let bl = body_lines(is);
        lemma_body_lines_ok(is);
        let tb = terminated(bl);
        assert(bl =~= seq![bl[0]] + bl.drop_first());
        crate::text::lemma_terminated_concat(seq![bl[0]], bl.drop_first());
        assert(seq![bl[0]].drop_last() =~= Seq::<Seq<char>>::empty());
        assert(terminated(Seq::<Seq<char>>::empty()) == Seq::<char>::empty());
        assert(terminated(seq![bl[0]]) =~= bl[0] + seq!['\n']);
        lemma_issue_header(is[0]);
        reveal_strlit("## #");
        assert(bl[0].subrange(0, 4) =~= "## #"@);
        assert(bl[0][0] == '#');
        assert(tb[0] == '#');
        assert(seq!['\n'] + issues_text(is) =~= seq!['\n', '\n'] + tb);
        lemma_strip_leading_two(tb);
        assert forall|k: int| 0 <= k < bl.len() implies lacks(#[trigger] bl[k], '\n') by {
            assert(line_ok(bl[k]));
        }
        assert forall|k: int| 0 <= k < bl.len() implies (#[trigger] bl[k]).len() == 0 || bl[k].last()
            != '\r' by {
            assert(line_ok(bl[k]));
        }
        crate::text::lemma_lines_terminated(bl);
        lemma_body_blocks(is);
        let n = is.len() as int;
        let w = Seq::new(
            is.len(),
            |k: int| (trim(issue_lines(is[k])[0].skip(3)), block_details(is[k], k, n)),
        );
        assert forall|k: int| 0 <= k < w.len() implies parse_issue_block(
            #[trigger] w[k].0,
            w[k].1,
            today,
        ) == Some(is[k]) by {
            let extra = if k < n - 1 {
                seq![Seq::<char>::empty()]
            } else {
                Seq::<Seq<char>>::empty()
            };
            let f = |l: Seq<char>| field_line(l);
            if k < n - 1 {
                lemma_filter_map_one(Seq::<char>::empty(), f);
                assert(trim(Seq::<char>::empty()) =~= Seq::<char>::empty());
                assert(field_line(Seq::<char>::empty()) == None::<(Seq<char>, Seq<char>)>);
            } else {
                assert(extra.filter_map(f) =~= Seq::<(Seq<char>, Seq<char>)>::empty());
            }
            lemma_issue_block(is[k], extra, today);
            assert(w[k].1 == issue_lines(is[k]).drop_first() + extra);
        }
        lemma_parse_blocks_each(w, is, today);
    }
}

/// Reading the markdown form of a well-formed issue file gives back the file.
pub proof fn lemma_issue_file_round_trip(f: IssueFileView, today: Date)
    requires
        issue_file_wf(f),
    ensures
        parse_issue_file(issue_file_text(f), today) == Ok::<IssueFileView, Seq<char>>(f),
{
    reveal_strlit("---\nproject: ");
    reveal_strlit("\nnext_id: ");
    reveal_strlit("\n---\n");
    reveal_strlit("---");
    reveal_strlit("\n---");
    reveal_strlit("project");
    reveal_strlit("next_id");
    let slug = f.project_slug;
    let d = dec(f.next_id as nat);
    let it = issues_text(f.issues);
    let text = issue_file_text(f);
    assert(text[0] == '-');
    assert(trim_start(text) == text);
    assert(text.subrange(0, 3) =~= "---"@);
    let af = text.skip(3);
    let p1 = "project"@ + seq![':', ' '] + slug;
    let p2 = "next_id"@ + seq![':', ' '] + d;
    assert(af =~= seq!['\n'] + p1 + seq!['\n'] + p2 + seq!['\n', '-', '-', '-', '\n'] + it);
    lemma_dec_digits(f.next_id as nat);
    crate::text::lemma_dec_lacks(f.next_id as nat, '\n');
    lemma_dec_trimmed(f.next_id as nat);
    lemma_lacks_concat("project"@ + seq![':', ' '], slug, '\n');
    lemma_lacks_concat("next_id"@ + seq![':', ' '], d, '\n');
    let e: int = (1 + p1.len() + 1 + p2.len()) as int;
    let pat = "\n---"@;
    assert(af.subrange(e, e + 4) =~= pat);
    assert forall|k: int| 0 <= k < e implies #[trigger] af.subrange(k, k + pat.len()) != pat by {
        assert(af.subrange(k, k + 4)[0] == af[k]);
        assert(af.subrange(k, k + 4)[1] == af[k + 1]);
        if k == 0 {
            assert(af[1] == 'p');
        } else if k < 1 + p1.len() {
            assert(af[k] == p1[k - 1]);
        } else if k == 1 + p1.len() {
            assert(af[k + 1] == 'n');
        } else {
            assert(af[k] == p2[k - 2 - p1.len()]);
        }
    }
    lemma_find_first(af, 0, e, pat);
    assert(af.take(e) =~= seq!['\n'] + p1 + seq!['\n'] + p2);
    lemma_meta_of_head(slug, d);
    let meta = seq![("project"@, slug), ("next_id"@, d)];
    assert(meta =~= seq![("project"@, slug)] + seq![("next_id"@, d)]);
    lemma_lookup_concat(seq![("project"@, slug)], seq![("next_id"@, d)], "project"@);
    lemma_lookup_concat(seq![("project"@, slug)], seq![("next_id"@, d)], "next_id"@);
    lemma_lookup_one("project"@, slug, "project"@);
    lemma_lookup_one("next_id"@, d, "project"@);
    lemma_lookup_one("project"@, slug, "next_id"@);
    lemma_lookup_one("next_id"@, d, "next_id"@);
    assert("project"@ != "next_id"@) by {
        assert("project"@[0] != "next_id"@[0]);
    }
    crate::text::lemma_parse_u32_dec(f.next_id);
    assert(af.skip(e + 4) =~= seq!['\n'] + it);
    assert(e + 4 < af.len());
    assert forall|k: int| 0 <= k < f.issues.len() implies {
        &&& chrono_parse_ymd(date_text(#[trigger] f.issues[k].created)) == Some(f.issues[k].created)
        &&& (f.issues[k].closed matches Some(c) ==> chrono_parse_ymd(date_text(c)) == Some(c))
    } by {
        assert(issue_wf(f.issues[k]));
        lemma_date_read_back(f.issues[k].created);
        if let Some(c) = f.issues[k].closed {
            lemma_date_read_back(c);
        }
    }
    lemma_body_round_trip(f.issues, today);
    let r = parse_issue_file(text, today);
    assert(r matches Ok(g) && g.project_slug == slug && g.next_id == f.next_id && g.issues == f.issues);
}

/// Writing a well-formed issue file, reading it and writing it again gives the same text.
pub proof fn lemma_issue_file_text_stable(f: IssueFileView, today: Date)
    requires
        issue_file_wf(f),
    ensures
        parse_issue_file(issue_file_text(f), today) matches Ok(g) && issue_file_text(g)
            == issue_file_text(f),
{
    lemma_issue_file_round_trip(f, today);
}

} // verus!
