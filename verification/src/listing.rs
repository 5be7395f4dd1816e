//! Reports of the command line: the issue listing (`jm issues`), for each project its
//! top-level issues and under each its sub-issues, as aligned lines filtered by status; and
//! the status line of the active project (`jm status`).
use vstd::prelude::*;
use crate::issue::{children_of, Issue, IssueFile, IssueView};
use crate::status::{issue_status_name, IssueStatus};
use crate::text::{dec, find_from, find_at, push_dec, push_str, push_string, push_chars, str_chars, string_from_chars};
use crate::project::{BlockerView, Project, ProjectView};
use crate::export::{JournalEntry, JournalEntryView};

verus! {

broadcast use vstd::string::group_string_axioms;

/// `s` padded with spaces on the right to `width` characters, as `{:<width}` formats it.
pub open spec fn pad_right(s: Seq<char>, width: nat) -> Seq<char> {
    s + Seq::new(
        (if s.len() < width {
            width - s.len()
        } else {
            0
        }) as nat,
        |i: int| ' ',
    )
}

/// One line of the listing: `{prefix}#{id:<3} {status:<8} {title}`.
pub open spec fn issue_line(prefix: Seq<char>, i: IssueView) -> Seq<char> {
    prefix + "#"@ + pad_right(dec(i.id as nat), 3) + " "@ + pad_right(issue_status_name(i.status), 8) + " "@
        + i.title
}

/// The status filter lets the issue through.
pub open spec fn shown(filter: Option<IssueStatus>, i: IssueView) -> bool {
    match filter {
        Some(s) => i.status == s,
        None => true,
    }
}

/// The lines of the issues that the filter lets through, in order.
pub open spec fn shown_lines(is: Seq<IssueView>, filter: Option<IssueStatus>, prefix: Seq<char>) -> Seq<Seq<char>>
    decreases is.len(),
{
    if is.len() == 0 {
        Seq::empty()
    } else {
        shown_lines(is.drop_last(), filter, prefix) + if shown(filter, is.last()) {
            seq![issue_line(prefix, is.last())]
        } else {
            Seq::empty()
        }
    }
}

pub open spec fn top_prefix(all: bool) -> Seq<char> {
    if all {
        "  "@
    } else {
        Seq::empty()
    }
}

pub open spec fn child_prefix(all: bool) -> Seq<char> {
    if all {
        "    "@
    } else {
        "  "@
    }
}

/// For each of `tops`, its line and then the lines of its sub-issues among `is`.
pub open spec fn tree_lines(is: Seq<IssueView>, tops: Seq<IssueView>, filter: Option<IssueStatus>, all: bool) -> Seq<Seq<char>>
    decreases tops.len(),
{
    if tops.len() == 0 {
        Seq::empty()
    } else {
        tree_lines(is, tops.drop_last(), filter, all) + shown_lines(seq![tops.last()], filter, top_prefix(all))
            + shown_lines(children_of(is, Some(tops.last().id)), filter, child_prefix(all))
    }
}

/// Some issue of the project passes the filter.
pub open spec fn any_shown(is: Seq<IssueView>, filter: Option<IssueStatus>) -> bool {
    exists|k: int| 0 <= k < is.len() && shown(filter, #[trigger] is[k])
}

/// A project's part of the listing: when listing all projects, its slug as a heading (where
/// it has top-level issues); then its issue tree.
pub open spec fn project_lines(slug: Seq<char>, is: Seq<IssueView>, filter: Option<IssueStatus>, all: bool) -> Seq<Seq<char>> {
    let tops = children_of(is, None);
    (if all && tops.len() > 0 {
        seq![slug + ":"@]
    } else {
        Seq::empty()
    }) + tree_lines(is, tops, filter, all)
}

/// The projects' parts, leaving out the projects where no issue passes the filter.
pub open spec fn listing(files: Seq<(Seq<char>, Seq<IssueView>)>, filter: Option<IssueStatus>, all: bool) -> Seq<Seq<char>>
    decreases files.len(),
{
    if files.len() == 0 {
        Seq::empty()
    } else {
        listing(files.drop_last(), filter, all) + if any_shown(files.last().1, filter) {
            project_lines(files.last().0, files.last().1, filter, all)
        } else {
            Seq::empty()
        }
    }
}

/// The listing, or `No issues found.` where no project has an issue that passes the filter.
pub open spec fn issues_report(files: Seq<(Seq<char>, Seq<IssueView>)>, filter: Option<IssueStatus>, all: bool) -> Seq<Seq<char>> {
    if exists|k: int| 0 <= k < files.len() && any_shown(#[trigger] files[k].1, filter) {
        listing(files, filter, all)
    } else {
        seq!["No issues found."@]
    }
}

pub open spec fn files_view(files: Seq<(String, IssueFile)>) -> Seq<(Seq<char>, Seq<IssueView>)> {
    files.map_values(|f: (String, IssueFile)| (f.0@, f.1@.issues))
}

fn pad_to(out: &mut Vec<char>, start: usize, width: usize)
    requires
        start <= old(out)@.len(),
    ensures
        final(out)@ == old(out)@.subrange(0, start as int) + pad_right(
            old(out)@.subrange(start as int, old(out)@.len() as int),
            width as nat,
        ),
{
    let ghost head = out@.subrange(0, start as int);
    let ghost s = out@.subrange(start as int, out@.len() as int);
    assert(out@ =~= head + s);
    let n = out.len() - start;
    let pad: usize = if n < width {
        width - n
    } else {
        0
    };
    let mut i: usize = 0;
    while i < pad
        invariant
            i <= pad,
            out@ == head + s + Seq::new(i as nat, |k: int| ' '),
        decreases pad - i,
    {
        out.push(' ');
        i = i + 1;
        assert(out@ =~= head + s + Seq::new(i as nat, |k: int| ' '));
    }
    assert(out@ =~= head + pad_right(s, width as nat));
}

fn line_of(prefix: &str, i: &Issue) -> (r: String)
    ensures
        r@ == issue_line(prefix@, i@),
{
    let mut t: Vec<char> = Vec::new();
    push_str(&mut t, prefix);
    push_str(&mut t, "#");
    let a = t.len();
    push_dec(&mut t, i.id as u64);
    pad_to(&mut t, a, 3);
    push_str(&mut t, " ");
    let b = t.len();
    push_string(&mut t, &i.status.to_string());
    pad_to(&mut t, b, 8);
    push_str(&mut t, " ");
    push_string(&mut t, &i.title);
    assert(t@ =~= issue_line(prefix@, i@));
    string_from_chars(&t)
}

fn passes(filter: Option<IssueStatus>, i: &Issue) -> (b: bool)
    ensures
        b == shown(filter, i@),
{
    match filter {
        Some(s) => i.status == s,
        None => true,
    }
}

fn push_line(out: &mut Vec<String>, l: String)
    ensures
        final(out).deep_view() == old(out).deep_view().push(l@),
{
    let ghost before = out.deep_view();
    out.push(l);
    assert(out.deep_view() =~= before.push(l@));
}

fn push_shown(out: &mut Vec<String>, is: &Vec<&Issue>, filter: Option<IssueStatus>, prefix: &str)
    ensures
        final(out).deep_view() == old(out).deep_view() + shown_lines(
            is@.map_values(|x: &Issue| x@),
            filter,
            prefix@,
        ),
{
    let ghost start = out.deep_view();
    let ghost v = is@.map_values(|x: &Issue| x@);
    let mut k: usize = 0;
    while k < is.len()
        invariant
            k <= is.len(),
            v == is@.map_values(|x: &Issue| x@),
            out.deep_view() == start + shown_lines(v.subrange(0, k as int), filter, prefix@),
        decreases is.len() - k,
    {
        assert(v.subrange(0, k + 1).drop_last() =~= v.subrange(0, k as int));
        assert(v.subrange(0, k + 1).last() == is[k as int]@);
        let ghost mid = out.deep_view();
        if passes(filter, is[k]) {
            push_line(out, line_of(prefix, is[k]));
        }
        assert(out.deep_view() =~= start + shown_lines(v.subrange(0, k + 1), filter, prefix@));
        k = k + 1;
    }
    assert(v.subrange(0, is.len() as int) =~= v);
}

fn file_any(f: &IssueFile, filter: Option<IssueStatus>) -> (b: bool)
    ensures
        b == any_shown(f@.issues, filter),
{
    let mut k: usize = 0;
    while k < f.issues.len()
        invariant
            k <= f.issues.len(),
            forall|j: int| 0 <= j < k ==> !shown(filter, #[trigger] f@.issues[j]),
        decreases f.issues.len() - k,
    {
        if passes(filter, &f.issues[k]) {
            assert(shown(filter, f@.issues[k as int]));
            return true;
        }
        k = k + 1;
    }
    false
}

fn push_project(out: &mut Vec<String>, slug: &String, f: &IssueFile, filter: Option<IssueStatus>, all: bool)
    ensures
        final(out).deep_view() == old(out).deep_view() + project_lines(slug@, f@.issues, filter, all),
{
    let ghost start = out.deep_view();
    let ghost is = f@.issues;
    let cm = f.children_map();
    let tops: Vec<&Issue> = match cm.get(&None) {
        Some(v) => v,
        None => Vec::new(),
    };
    let ghost tv = tops@.map_values(|x: &Issue| x@);
    assert(tv =~= children_of(is, None));
    if all && tops.len() > 0 {
        let mut h: Vec<char> = Vec::new();
        push_string(&mut h, slug);
        push_str(&mut h, ":");
        push_line(out, string_from_chars(&h));
    }
    let ghost head = out.deep_view();
    assert(head == start + (if all && tv.len() > 0 {
        seq![slug@ + ":"@]
    } else {
        Seq::<Seq<char>>::empty()
    }));
    let top_p = if all {
        "  "
    } else {
        ""
    };
    let child_p = if all {
        "    "
    } else {
        "  "
    };
    proof {
        reveal_strlit("");
        reveal_strlit("  ");
        reveal_strlit("    ");
    }
    assert(top_p@ == top_prefix(all));
    assert(child_p@ == child_prefix(all));
    let mut k: usize = 0;
    while k < tops.len()
        invariant
            k <= tops.len(),
            tv == tops@.map_values(|x: &Issue| x@),
            is == f@.issues,
            cm.issues_view() == is,
            top_p@ == top_prefix(all),
            child_p@ == child_prefix(all),
            out.deep_view() == head + tree_lines(is, tv.subrange(0, k as int), filter, all),
        decreases tops.len() - k,
    {
        assert(tv.subrange(0, k + 1).drop_last() =~= tv.subrange(0, k as int));
        assert(tv.subrange(0, k + 1).last() == tops[k as int]@);
        let one: Vec<&Issue> = vec![tops[k]];
        assert(one@.map_values(|x: &Issue| x@) =~= seq![tops[k as int]@]);
        push_shown(out, &one, filter, top_p);
        let id = tops[k].id;
        match cm.get(&Some(id)) {
            Some(children) => push_shown(out, &children, filter, child_p),
            None => {
                assert(shown_lines(children_of(is, Some(id)), filter, child_p@) =~= Seq::<Seq<char>>::empty()) by {
                    assert(children_of(is, Some(id)) =~= Seq::<IssueView>::empty());
                }
            },
        }
        k = k + 1;
        assert(out.deep_view() =~= head + tree_lines(is, tv.subrange(0, k as int), filter, all));
    }
    assert(tv.subrange(0, tops.len() as int) =~= tv);
    assert(out.deep_view() =~= start + project_lines(slug@, is, filter, all));
}

/// The lines `jm issues` prints for the projects' issue files (each with its slug): with
/// `all`, every project under a heading, else the one project; only issues with `status`
/// where one is given.
pub fn list_issues(files: &Vec<(String, IssueFile)>, status: Option<IssueStatus>, all: bool) -> (r: Vec<String>)
    ensures
        r.deep_view() == issues_report(files_view(files@), status, all),
{
    let ghost fv = files_view(files@);
    let mut out: Vec<String> = Vec::new();
    let mut any = false;
    let mut k: usize = 0;
    while k < files.len()
        invariant
            k <= files.len(),
            fv == files_view(files@),
            out.deep_view() == listing(fv.subrange(0, k as int), status, all),
            any == exists|j: int| 0 <= j < k && any_shown(#[trigger] fv[j].1, status),
        decreases files.len() - k,
    {
        assert(fv.subrange(0, k + 1).drop_last() =~= fv.subrange(0, k as int));
        assert(fv[k as int] == (files[k as int].0@, files[k as int].1@.issues));
        let ghost before = out.deep_view();
        if file_any(&files[k].1, status) {
            push_project(&mut out, &files[k].0, &files[k].1, status, all);
            any = true;
        }
        assert(out.deep_view() =~= listing(fv.subrange(0, k + 1), status, all));
        k = k + 1;
    }
    assert(fv.subrange(0, files.len() as int) =~= fv);
    if !any {
        let mut none: Vec<String> = Vec::new();
        push_line(&mut none, string_from_chars(&str_chars("No issues found.")));
        assert(none.deep_view() =~= seq!["No issues found."@]);
        return none;
    }
    out
}

// ── Status line ──────────────────────────────────────────────────────

/// How many blockers are open.
pub open spec fn open_count(bs: Seq<BlockerView>) -> nat
    decreases bs.len(),
{
    if bs.len() == 0 {
        0
    } else {
        open_count(bs.drop_last()) + if bs.last().resolved {
            0nat
        } else {
            1nat
        }
    }
}

/// ` (since TIME)`, from the latest journal entry that started or switched to a project
/// whose name contains `name`; nothing where there is none.
pub open spec fn since_text(es: Seq<JournalEntryView>, name: Seq<char>) -> Seq<char>
    decreases es.len(),
{
    if es.len() == 0 {
        Seq::empty()
    } else {
        let e = es.last();
        if (e.entry_type == "Started"@ || e.entry_type == "Switched"@) && find_from(e.project, 0, name) is Some {
            " (since "@ + e.time + ")"@
        } else {
            since_text(es.drop_last(), name)
        }
    }
}

/// `Active: NAME`, since when it is worked on, how many blockers are open, and the focus.
pub open spec fn status_text(p: ProjectView, es: Seq<JournalEntryView>) -> Seq<char> {
    let n = open_count(p.blockers);
    "Active: "@ + p.name + since_text(es, p.name) + (if n > 0 {
        ", "@ + dec(n) + " blockers"@
    } else {
        Seq::empty()
    }) + (if p.current_focus.len() > 0 {
        " -- "@ + p.current_focus
    } else {
        Seq::empty()
    })
}

/// The line `jm status` prints for the active project, given today's journal entries.
pub fn status_line(p: &Project, journal: &Vec<JournalEntry>) -> (r: String)
    ensures
        r@ == status_text(p@, journal@.map_values(|e: JournalEntry| e@)),
{
    let ghost bv = p@.blockers;
    let mut n: u64 = 0;
    let mut k: usize = 0;
    while k < p.blockers.len()
        invariant
            k <= p.blockers.len(),
            bv == p@.blockers,
            n == open_count(bv.subrange(0, k as int)),
            n <= k,
        decreases p.blockers.len() - k,
    {
        assert(bv.subrange(0, k + 1).drop_last() =~= bv.subrange(0, k as int));
        assert(bv.subrange(0, k + 1).last() == p.blockers[k as int]@);
        if !p.blockers[k].resolved {
            n = n + 1;
        }
        k = k + 1;
    }
    assert(bv.subrange(0, p.blockers.len() as int) =~= bv);
    let ghost es = journal@.map_values(|e: JournalEntry| e@);
    let name = str_chars(p.name.as_str());
    let mut since: Vec<char> = Vec::new();
    let mut j: usize = journal.len();
    proof {
        reveal_strlit("Started");
        reveal_strlit("Switched");
    }
    assert(es.subrange(0, j as int) =~= es);
    while j > 0
        invariant_except_break
            j <= journal.len(),
            es == journal@.map_values(|e: JournalEntry| e@),
            name@ == p.name@,
            since_text(es, p.name@) == since_text(es.subrange(0, j as int), p.name@),
            since@ == Seq::<char>::empty(),
        ensures
            since@ == since_text(es, p.name@),
        decreases j,
    {
        let e = &journal[j - 1];
        let ghost pre = es.subrange(0, j as int);
        assert(pre.drop_last() =~= es.subrange(0, j - 1));
        assert(pre.last() == e@);
        let t = str_chars(e.entry_type.as_str());
        let kind = crate::yaml::eq_chars(&t, &str_chars("Started")) || crate::yaml::eq_chars(&t, &str_chars("Switched"));
        if kind {
            let proj = str_chars(e.project.as_str());
            if find_at(&proj, 0, &name).is_some() {
                push_str(&mut since, " (since ");
                push_string(&mut since, &e.time);
                push_str(&mut since, ")");
                break;
            }
        }
        j = j - 1;
    }
    let mut out: Vec<char> = Vec::new();
    push_str(&mut out, "Active: ");
    push_string(&mut out, &p.name);
    push_chars(&mut out, &since);
    if n > 0 {
        push_str(&mut out, ", ");
        push_dec(&mut out, n);
        push_str(&mut out, " blockers");
    }
    if !p.current_focus.as_str().is_empty() {
        push_str(&mut out, " -- ");
        push_string(&mut out, &p.current_focus);
    }
    proof {
        reveal_strlit("");
    }
    assert(out@ =~= status_text(p@, es));
    string_from_chars(&out)
}

} // verus!
