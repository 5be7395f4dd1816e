//! Cross-links: `[[project-slug]]` references written in project text.
//!
//! A link is `[[`, one or more characters out of `a-z`, `0-9` and `-`, then `]]`.
//! Links are found left to right without overlapping, as a regular-expression
//! search for `\[\[([a-z0-9-]+)\]\]` finds them.
use vstd::prelude::*;
use crate::export::contains;
use crate::project::{BlockerView, DecisionView, LogEntryView, Project, ProjectView};
use crate::text::{find_at, push_str, push_string, run_len, slice, str_chars, string_from_chars};

verus! {

broadcast use vstd::string::group_string_axioms;

/// A character that may stand in a slug reference.
pub open spec fn is_slug_char(c: char) -> bool {
    ('a' <= c && c <= 'z') || ('0' <= c && c <= '9') || c == '-'
}

/// The length of the link that starts at `i`, or 0 where none starts there.
pub open spec fn link_len_at(s: Seq<char>, i: int) -> nat {
    if 0 <= i && i + 2 <= s.len() && s[i] == '[' && s[i + 1] == '[' {
        let k = run_len(s.skip(i + 2), |c: char| is_slug_char(c));
        if k >= 1 && i + k + 4 <= s.len() && s[i + 2 + k] == ']' && s[i + 3 + k] == ']' {
            (k + 4) as nat
        } else {
            0
        }
    } else {
        0
    }
}

/// The slugs of the links found from `pos` on.
pub open spec fn links_from(s: Seq<char>, pos: int) -> Seq<Seq<char>>
    decreases s.len() - pos,
{
    if pos < 0 || pos >= s.len() {
        Seq::empty()
    } else if link_len_at(s, pos) > 0 {
        let n = link_len_at(s, pos) as int;
        seq![s.subrange(pos + 2, pos + n - 2)] + links_from(s, pos + n)
    } else {
        links_from(s, pos + 1)
    }
}

/// The slugs of all links in `s`, in order.
pub open spec fn links(s: Seq<char>) -> Seq<Seq<char>> {
    links_from(s, 0)
}

/// The spans of `s` from `last` on, where the search for the next link goes on at `pos`:
/// plain text between links as `(text, false)`, each link as `(text, true)`.
pub open spec fn spans_from(s: Seq<char>, last: int, pos: int) -> Seq<(Seq<char>, bool)>
    decreases s.len() - pos,
{
    if pos < 0 || pos >= s.len() {
        if 0 <= last < s.len() {
            seq![(s.subrange(last, s.len() as int), false)]
        } else {
            Seq::empty()
        }
    } else if link_len_at(s, pos) > 0 {
        let n = link_len_at(s, pos) as int;
        let before: Seq<(Seq<char>, bool)> = if pos > last {
            seq![(s.subrange(last, pos), false)]
        } else {
            Seq::empty()
        };
        before + seq![(s.subrange(pos, pos + n), true)] + spans_from(s, pos + n, pos + n)
    } else {
        spans_from(s, last, pos + 1)
    }
}

/// `s` cut into plain spans and link spans.
pub open spec fn spans(s: Seq<char>) -> Seq<(Seq<char>, bool)> {
    spans_from(s, 0, 0)
}

/// The texts of the spans, put back together.
pub open spec fn spans_text(sp: Seq<(Seq<char>, bool)>) -> Seq<char>
    decreases sp.len(),
{
    if sp.len() == 0 {
        Seq::empty()
    } else {
        sp[0].0 + spans_text(sp.drop_first())
    }
}

/// The slugs inside the link spans, in order.
pub open spec fn span_slugs(sp: Seq<(Seq<char>, bool)>) -> Seq<Seq<char>>
    decreases sp.len(),
{
    if sp.len() == 0 {
        Seq::empty()
    } else if sp[0].1 {
        seq![sp[0].0.subrange(2, sp[0].0.len() - 2)] + span_slugs(sp.drop_first())
    } else {
        span_slugs(sp.drop_first())
    }
}

// ── Executable search ────────────────────────────────────────────────

fn slug_char(c: char) -> (b: bool)
    ensures
        b == is_slug_char(c),
{
    ('a' <= c && c <= 'z') || ('0' <= c && c <= '9') || c == '-'
}

/// The length of the link that starts at `i` (0 where none does).
fn link_len(s: &Vec<char>, i: usize) -> (r: usize)
    requires
        i <= s.len(),
    ensures
        r == link_len_at(s@, i as int),
        r > 0 ==> i + r <= s.len(),
{
    if s.len() - i < 2 || s[i] != '[' || s[i + 1] != '[' {
        return 0;
    }
    let mut j = i + 2;
    while j < s.len() && slug_char(s[j])
        invariant
            i + 2 <= j <= s.len(),
            (j - (i + 2)) + run_len(s@.skip(j as int), |c: char| is_slug_char(c)) == run_len(
                s@.skip(i + 2),
                |c: char| is_slug_char(c),
            ),
        decreases s.len() - j,
    {
        assert(s@.skip(j as int).drop_first() =~= s@.skip(j + 1));
        j = j + 1;
    }
    let k = j - (i + 2);
    if k >= 1 && s.len() - j >= 2 && s[j] == ']' && s[j + 1] == ']' {
        j + 2 - i
    } else {
        0
    }
}

/// Extract all `[[slug]]` references from text.
pub fn extract_links(text: &str) -> (r: Vec<String>)
    ensures
        r.deep_view() == links(text@),
{
    let s = str_chars(text);
    let mut out: Vec<String> = Vec::new();
    let mut pos: usize = 0;
    while pos < s.len()
        invariant
            pos <= s.len(),
            out.deep_view() + links_from(s@, pos as int) == links_from(s@, 0),
        decreases s.len() - pos,
    {
        let n = link_len(&s, pos);
        if n > 0 {
            let inner = slice(&s, pos + 2, pos + n - 2);
            let ghost before = out.deep_view();
            out.push(string_from_chars(&inner));
            assert(out.deep_view() =~= before.push(inner@));
            assert(out.deep_view() + links_from(s@, (pos + n) as int) =~= before + links_from(
                s@,
                pos as int,
            ));
            pos = pos + n;
        } else {
            pos = pos + 1;
        }
    }
    assert(out.deep_view() =~= out.deep_view() + links_from(s@, pos as int));
    out
}

/// Split text into spans, highlighting `[[slug]]` references.
/// Returns `(text, is_link)` pairs.
pub fn split_with_links(text: &str) -> (r: Vec<(String, bool)>)
    ensures
        r.deep_view() == spans(text@),
{
    let s = str_chars(text);
    let mut out: Vec<(String, bool)> = Vec::new();
    let mut last: usize = 0;
    let mut pos: usize = 0;
    while pos < s.len()
        invariant
            last <= pos <= s.len(),
            out.deep_view() + spans_from(s@, last as int, pos as int) == spans_from(s@, 0, 0),
        decreases s.len() - pos,
    {
        let n = link_len(&s, pos);
        if n > 0 {
            let ghost before = out.deep_view();
            let ghost pre: Seq<(Seq<char>, bool)> = if pos > last {
                seq![(s@.subrange(last as int, pos as int), false)]
            } else {
                Seq::empty()
            };
            if pos > last {
                let t = slice(&s, last, pos);
                out.push((string_from_chars(&t), false));
            }
            assert(out.deep_view() =~= before + pre);
            let l = slice(&s, pos, pos + n);
            out.push((string_from_chars(&l), true));
            assert(out.deep_view() =~= before + pre + seq![
                (s@.subrange(pos as int, (pos + n) as int), true),
            ]);
            let ghost mid = seq![(s@.subrange(pos as int, (pos + n) as int), true)];
            assert(spans_from(s@, last as int, pos as int) == pre + mid + spans_from(
                s@,
                (pos + n) as int,
                (pos + n) as int,
            ));
            assert(out.deep_view() + spans_from(s@, (pos + n) as int, (pos + n) as int)
                =~= before + spans_from(s@, last as int, pos as int));
            pos = pos + n;
            last = pos;
        } else {
            pos = pos + 1;
        }
    }
    let ghost before = out.deep_view();
    if last < s.len() {
        let t = slice(&s, last, s.len());
        out.push((string_from_chars(&t), false));
        assert(out.deep_view() =~= before.push((s@.subrange(last as int, s@.len() as int), false)));
    }
    assert(out.deep_view() =~= before + spans_from(s@, last as int, pos as int));
    out
}

// ── References between projects ──────────────────────────────────────

/// `[[slug]]`.
pub open spec fn link_text(slug: Seq<char>) -> Seq<char> {
    "[["@ + slug + "]]"@
}

pub open spec fn blocker_refs(slug: Seq<char>, bs: Seq<BlockerView>, t: Seq<char>) -> Seq<(Seq<char>, Seq<char>)>
    decreases bs.len(),
{
    if bs.len() == 0 {
        Seq::empty()
    } else if contains(bs.last().description, t) {
        blocker_refs(slug, bs.drop_last(), t).push((slug, "Blocker: "@ + bs.last().description))
    } else {
        blocker_refs(slug, bs.drop_last(), t)
    }
}

pub open spec fn decision_refs(slug: Seq<char>, ds: Seq<DecisionView>, t: Seq<char>) -> Seq<(Seq<char>, Seq<char>)>
    decreases ds.len(),
{
    if ds.len() == 0 {
        Seq::empty()
    } else if contains(ds.last().choice, t) {
        decision_refs(slug, ds.drop_last(), t).push((slug, "Decision: "@ + ds.last().choice))
    } else {
        decision_refs(slug, ds.drop_last(), t)
    }
}

pub open spec fn line_refs(slug: Seq<char>, ls: Seq<Seq<char>>, t: Seq<char>) -> Seq<(Seq<char>, Seq<char>)>
    decreases ls.len(),
{
    if ls.len() == 0 {
        Seq::empty()
    } else if contains(ls.last(), t) {
        line_refs(slug, ls.drop_last(), t).push((slug, ls.last()))
    } else {
        line_refs(slug, ls.drop_last(), t)
    }
}

pub open spec fn log_refs(slug: Seq<char>, es: Seq<LogEntryView>, t: Seq<char>) -> Seq<(Seq<char>, Seq<char>)>
    decreases es.len(),
{
    if es.len() == 0 {
        Seq::empty()
    } else {
        log_refs(slug, es.drop_last(), t) + line_refs(slug, es.last().lines, t)
    }
}

/// Where project `p` mentions `t`: its focus, blockers, decisions and log lines, in that
/// order, each with the project's slug.
pub open spec fn project_refs(p: ProjectView, t: Seq<char>) -> Seq<(Seq<char>, Seq<char>)> {
    (if contains(p.current_focus, t) {
        seq![(p.slug, "Focus: "@ + p.current_focus)]
    } else {
        Seq::empty()
    }) + blocker_refs(p.slug, p.blockers, t) + decision_refs(p.slug, p.decisions, t) + log_refs(
        p.slug,
        p.log,
        t,
    )
}

/// The references to `slug` from the other projects.
pub open spec fn references(slug: Seq<char>, ps: Seq<ProjectView>) -> Seq<(Seq<char>, Seq<char>)>
    decreases ps.len(),
{
    if ps.len() == 0 {
        Seq::empty()
    } else if ps.last().slug == slug {
        references(slug, ps.drop_last())
    } else {
        references(slug, ps.drop_last()) + project_refs(ps.last(), link_text(slug))
    }
}

fn mentions(s: &String, t: &Vec<char>) -> (b: bool)
    ensures
        b == contains(s@, t@),
{
    let cs = str_chars(s.as_str());
    find_at(&cs, 0, t).is_some()
}

fn push_ref(out: &mut Vec<(String, String)>, slug: &String, prefix: &str, text: &String)
    ensures
        final(out).deep_view() == old(out).deep_view().push((slug@, prefix@ + text@)),
{
    let mut l: Vec<char> = Vec::new();
    push_str(&mut l, prefix);
    push_string(&mut l, text);
    let ghost before = out.deep_view();
    out.push((string_from_chars(&str_chars(slug.as_str())), string_from_chars(&l)));
    assert(out.deep_view() =~= before.push((slug@, prefix@ + text@)));
}

fn project_refs_of(p: &Project, t: &Vec<char>, out: &mut Vec<(String, String)>)
    ensures
        final(out).deep_view() == old(out).deep_view() + project_refs(p@, t@),
{
    let ghost start = out.deep_view();
    let ghost pv = p@;
    if mentions(&p.current_focus, t) {
        push_ref(out, &p.slug, "Focus: ", &p.current_focus);
    }
    let ghost a = out.deep_view();
    assert(a =~= start + (if contains(pv.current_focus, t@) {
        seq![(pv.slug, "Focus: "@ + pv.current_focus)]
    } else {
        Seq::<(Seq<char>, Seq<char>)>::empty()
    }));
    let mut i: usize = 0;
    while i < p.blockers.len()
        invariant
            i <= p.blockers.len(),
            pv == p@,
            out.deep_view() == a + blocker_refs(pv.slug, pv.blockers.subrange(0, i as int), t@),
        decreases p.blockers.len() - i,
    {
        assert(pv.blockers.subrange(0, i + 1).drop_last() =~= pv.blockers.subrange(0, i as int));
        assert(pv.blockers[i as int] == p.blockers[i as int]@);
        if mentions(&p.blockers[i].description, t) {
            push_ref(out, &p.slug, "Blocker: ", &p.blockers[i].description);
        }
        i = i + 1;
    }
    assert(pv.blockers.subrange(0, i as int) =~= pv.blockers);
    let ghost b = out.deep_view();
    let mut i: usize = 0;
    while i < p.decisions.len()
        invariant
            i <= p.decisions.len(),
            pv == p@,
            out.deep_view() == b + decision_refs(pv.slug, pv.decisions.subrange(0, i as int), t@),
        decreases p.decisions.len() - i,
    {
        assert(pv.decisions.subrange(0, i + 1).drop_last() =~= pv.decisions.subrange(0, i as int));
        assert(pv.decisions[i as int] == p.decisions[i as int]@);
        if mentions(&p.decisions[i].choice, t) {
            push_ref(out, &p.slug, "Decision: ", &p.decisions[i].choice);
        }
        i = i + 1;
    }
    assert(pv.decisions.subrange(0, i as int) =~= pv.decisions);
    let ghost c = out.deep_view();
    let mut i: usize = 0;
    while i < p.log.len()
        invariant
            i <= p.log.len(),
            pv == p@,
            out.deep_view() == c + log_refs(pv.slug, pv.log.subrange(0, i as int), t@),
        decreases p.log.len() - i,
    {
        assert(pv.log.subrange(0, i + 1).drop_last() =~= pv.log.subrange(0, i as int));
        let e = &p.log[i];
        assert(pv.log[i as int] == e@);
        let ghost d0 = out.deep_view();
        let mut j: usize = 0;
        while j < e.lines.len()
            invariant
                j <= e.lines.len(),
                out.deep_view() == d0 + line_refs(pv.slug, e@.lines.subrange(0, j as int), t@),
                pv == p@,
            decreases e.lines.len() - j,
        {
            assert(e@.lines.subrange(0, j + 1).drop_last() =~= e@.lines.subrange(0, j as int));
            if mentions(&e.lines[j], t) {
                let ghost before = out.deep_view();
                let line = string_from_chars(&str_chars(e.lines[j].as_str()));
                out.push((string_from_chars(&str_chars(p.slug.as_str())), line));
                assert(out.deep_view() =~= before.push((pv.slug, e@.lines[j as int])));
            }
            j = j + 1;
        }
        assert(e@.lines.subrange(0, j as int) =~= e@.lines);
        i = i + 1;
        assert(out.deep_view() =~= c + log_refs(pv.slug, pv.log.subrange(0, i as int), t@));
    }
    assert(pv.log.subrange(0, i as int) =~= pv.log);
    assert(out.deep_view() =~= start + project_refs(pv, t@));
}

/// Find all projects that reference `slug` via `[[slug]]`.
/// Returns `(referencing_project_slug, context_line)`.
pub fn find_references(slug: &str, projects: &[Project]) -> (r: Vec<(String, String)>)
    ensures
        r.deep_view() == references(slug@, projects@.map_values(|p: Project| p@)),
{
    let mut t: Vec<char> = Vec::new();
    push_str(&mut t, "[[");
    push_str(&mut t, slug);
    push_str(&mut t, "]]");
    let sc = str_chars(slug);
    let ghost ps = projects@.map_values(|p: Project| p@);
    let mut out: Vec<(String, String)> = Vec::new();
    let mut i: usize = 0;
    while i < projects.len()
        invariant
            i <= projects.len(),
            ps == projects@.map_values(|p: Project| p@),
            t@ == link_text(slug@),
            sc@ == slug@,
            out.deep_view() == references(slug@, ps.subrange(0, i as int)),
        decreases projects.len() - i,
    {
        assert(ps.subrange(0, i + 1).drop_last() =~= ps.subrange(0, i as int));
        let p = &projects[i];
        assert(ps[i as int] == p@);
        let same = crate::yaml::eq_chars(&str_chars(p.slug.as_str()), &sc);
        if !same {
            project_refs_of(p, &t, &mut out);
        }
        i = i + 1;
    }
    assert(ps.subrange(0, i as int) =~= ps);
    out
}

// ── Laws ─────────────────────────────────────────────────────────────

proof fn lemma_single_span(x: (Seq<char>, bool))
    ensures
        spans_text(seq![x]) == x.0,
        span_slugs(seq![x]) == (if x.1 {
            seq![x.0.subrange(2, x.0.len() - 2)]
        } else {
            Seq::<Seq<char>>::empty()
        }),
{
    let one = seq![x];
    let e = Seq::<(Seq<char>, bool)>::empty();
    assert(one.drop_first() =~= e);
    assert(spans_text(e) == Seq::<char>::empty());
    assert(span_slugs(e) == Seq::<Seq<char>>::empty());
    assert(spans_text(one) =~= x.0);
    assert(span_slugs(one) =~= (if x.1 {
        seq![x.0.subrange(2, x.0.len() - 2)]
    } else {
        Seq::<Seq<char>>::empty()
    }));
}

proof fn lemma_spans_text_append(a: Seq<(Seq<char>, bool)>, b: Seq<(Seq<char>, bool)>)
    ensures
        spans_text(a + b) == spans_text(a) + spans_text(b),
    decreases a.len(),
{
    if a.len() == 0 {
        assert(a + b =~= b);
    } else {
        assert((a + b).drop_first() =~= a.drop_first() + b);
        lemma_spans_text_append(a.drop_first(), b);
        assert(spans_text(a + b) =~= spans_text(a) + spans_text(b));
    }
}

proof fn lemma_span_slugs_append(a: Seq<(Seq<char>, bool)>, b: Seq<(Seq<char>, bool)>)
    ensures
        span_slugs(a + b) == span_slugs(a) + span_slugs(b),
    decreases a.len(),
{
    if a.len() == 0 {
        assert(a + b =~= b);
    } else {
        assert((a + b).drop_first() =~= a.drop_first() + b);
        lemma_span_slugs_append(a.drop_first(), b);
        assert(span_slugs(a + b) =~= span_slugs(a) + span_slugs(b));
    }
}

proof fn lemma_spans_from_text(s: Seq<char>, last: int, pos: int)
    requires
        0 <= last <= pos <= s.len(),
    ensures
        spans_text(spans_from(s, last, pos)) == s.subrange(last, s.len() as int),
    decreases s.len() - pos,
{
    if pos >= s.len() {
        if last < s.len() {
            lemma_single_span((s.subrange(last, s.len() as int), false));
        } else {
            assert(s.subrange(last, s.len() as int) =~= Seq::<char>::empty());
        }
    } else if link_len_at(s, pos) > 0 {
        let n = link_len_at(s, pos) as int;
        let before: Seq<(Seq<char>, bool)> = if pos > last {
            seq![(s.subrange(last, pos), false)]
        } else {
            Seq::empty()
        };
        let mid = seq![(s.subrange(pos, pos + n), true)];
        let rest = spans_from(s, pos + n, pos + n);
        lemma_spans_from_text(s, pos + n, pos + n);
        lemma_spans_text_append(before + mid, rest);
        lemma_spans_text_append(before, mid);
        lemma_single_span((s.subrange(pos, pos + n), true));
        if pos > last {
            lemma_single_span((s.subrange(last, pos), false));
        } else {
            assert(spans_text(before) == Seq::<char>::empty());
            assert(span_slugs(before) == Seq::<Seq<char>>::empty());
        }
        assert(spans_text(before) =~= s.subrange(last, pos));
        assert(spans_text(mid) =~= s.subrange(pos, pos + n));
        assert(s.subrange(last, pos) + s.subrange(pos, pos + n) + s.subrange(
            pos + n,
            s.len() as int,
        ) =~= s.subrange(last, s.len() as int));
    } else {
        lemma_spans_from_text(s, last, pos + 1);
    }
}

proof fn lemma_spans_from_slugs(s: Seq<char>, last: int, pos: int)
    requires
        0 <= last <= pos <= s.len(),
    ensures
        span_slugs(spans_from(s, last, pos)) == links_from(s, pos),
    decreases s.len() - pos,
{
    if pos >= s.len() {
        if last < s.len() {
            lemma_single_span((s.subrange(last, s.len() as int), false));
        }
    } else if link_len_at(s, pos) > 0 {
        let n = link_len_at(s, pos) as int;
        let before: Seq<(Seq<char>, bool)> = if pos > last {
            seq![(s.subrange(last, pos), false)]
        } else {
            Seq::empty()
        };
        let mid = seq![(s.subrange(pos, pos + n), true)];
        let rest = spans_from(s, pos + n, pos + n);
        lemma_spans_from_slugs(s, pos + n, pos + n);
        lemma_span_slugs_append(before + mid, rest);
        lemma_span_slugs_append(before, mid);
        lemma_single_span((s.subrange(pos, pos + n), true));
        if pos > last {
            lemma_single_span((s.subrange(last, pos), false));
        } else {
            assert(spans_text(before) == Seq::<char>::empty());
            assert(span_slugs(before) == Seq::<Seq<char>>::empty());
        }
        assert(span_slugs(before) =~= Seq::<Seq<char>>::empty());
        assert(s.subrange(pos, pos + n).subrange(2, n - 2) =~= s.subrange(pos + 2, pos + n - 2));
        assert(span_slugs(mid) =~= seq![s.subrange(pos + 2, pos + n - 2)]);
        assert(span_slugs(spans_from(s, last, pos)) =~= links_from(s, pos));
    } else {
        lemma_spans_from_slugs(s, last, pos + 1);
    }
}

/// Splitting loses nothing: the spans of a text, put back together, are the text.
pub proof fn lemma_split_with_links_covers(s: Seq<char>)
    ensures
        spans_text(spans(s)) == s,
{
    lemma_spans_from_text(s, 0, 0);
    assert(s.subrange(0, s.len() as int) =~= s);
}

/// The link spans that splitting marks are exactly the references that extraction
/// reports, in the same order.
pub proof fn lemma_split_agrees_with_extract(s: Seq<char>)
    ensures
        span_slugs(spans(s)) == links(s),
{
    lemma_spans_from_slugs(s, 0, 0);
}

// ── Every log line is found ──────────────────────────────────────────

proof fn lemma_in_concat<A>(a: Seq<A>, b: Seq<A>, x: A)
    requires
        a.contains(x) || b.contains(x),
    ensures
        (a + b).contains(x),
{
    if a.contains(x) {
        let i = choose|i: int| 0 <= i < a.len() && a[i] == x;
        assert((a + b)[i] == x);
    } else {
        let i = choose|i: int| 0 <= i < b.len() && b[i] == x;
        assert((a + b)[a.len() + i] == x);
    }
}

proof fn lemma_line_refs_has(slug: Seq<char>, ls: Seq<Seq<char>>, t: Seq<char>, li: int)
    requires
        0 <= li < ls.len(),
        contains(ls[li], t),
    ensures
        line_refs(slug, ls, t).contains((slug, ls[li])),
    decreases ls.len(),
{
    let d = ls.drop_last();
    if li == ls.len() - 1 {
        assert(ls.last() == ls[li]);
        let r = line_refs(slug, d, t).push((slug, ls[li]));
        assert(r[r.len() - 1] == (slug, ls[li]));
    } else {
        assert(d[li] == ls[li]);
        lemma_line_refs_has(slug, d, t, li);
        if contains(ls.last(), t) {
            let r = line_refs(slug, d, t);
            let i = choose|i: int| 0 <= i < r.len() && r[i] == (slug, ls[li]);
            assert(r.push((slug, ls.last()))[i] == (slug, ls[li]));
        }
    }
}

proof fn lemma_log_refs_has(slug: Seq<char>, es: Seq<LogEntryView>, t: Seq<char>, ei: int, li: int)
    requires
        0 <= ei < es.len(),
        0 <= li < es[ei].lines.len(),
        contains(es[ei].lines[li], t),
    ensures
        log_refs(slug, es, t).contains((slug, es[ei].lines[li])),
    decreases es.len(),
{
    let d = es.drop_last();
    if ei == es.len() - 1 {
        assert(es.last() == es[ei]);
        lemma_line_refs_has(slug, es[ei].lines, t, li);
        lemma_in_concat(log_refs(slug, d, t), line_refs(slug, es.last().lines, t), (slug, es[ei].lines[li]));
    } else {
        assert(d[ei] == es[ei]);
        lemma_log_refs_has(slug, d, t, ei, li);
        lemma_in_concat(log_refs(slug, d, t), line_refs(slug, es.last().lines, t), (slug, es[ei].lines[li]));
    }
}

/// Every log line of every other project that links to `slug` (holds `[[slug]]`) is among
/// the references to `slug`, with that project's slug, whatever day of the log it is under.
pub proof fn lemma_references_find_every_log_line(
    slug: Seq<char>,
    ps: Seq<ProjectView>,
    pi: int,
    ei: int,
    li: int,
)
    requires
        0 <= pi < ps.len(),
        ps[pi].slug != slug,
        0 <= ei < ps[pi].log.len(),
        0 <= li < ps[pi].log[ei].lines.len(),
        contains(ps[pi].log[ei].lines[li], "[["@ + slug + "]]"@),
    ensures
        references(slug, ps).contains((ps[pi].slug, ps[pi].log[ei].lines[li])),
    decreases ps.len(),
{
    let x = (ps[pi].slug, ps[pi].log[ei].lines[li]);
    let d = ps.drop_last();
    if pi == ps.len() - 1 {
        let p = ps.last();
        assert(p == ps[pi]);
        let t = link_text(slug);
        lemma_log_refs_has(p.slug, p.log, t, ei, li);
        let head = (if contains(p.current_focus, t) {
            seq![(p.slug, "Focus: "@ + p.current_focus)]
        } else {
            Seq::empty()
        }) + blocker_refs(p.slug, p.blockers, t) + decision_refs(p.slug, p.decisions, t);
        lemma_in_concat(head, log_refs(p.slug, p.log, t), x);
        assert(project_refs(p, t) == head + log_refs(p.slug, p.log, t));
        lemma_in_concat(references(slug, d), project_refs(p, t), x);
    } else {
        assert(d[pi] == ps[pi]);
        lemma_references_find_every_log_line(slug, d, pi, ei, li);
        if ps.last().slug != slug {
            lemma_in_concat(references(slug, d), project_refs(ps.last(), link_text(slug)), x);
        }
    }
}

proof fn lemma_blocker_refs_has(slug: Seq<char>, bs: Seq<BlockerView>, t: Seq<char>, bi: int)
    requires
        0 <= bi < bs.len(),
        contains(bs[bi].description, t),
    ensures
        blocker_refs(slug, bs, t).contains((slug, "Blocker: "@ + bs[bi].description)),
    decreases bs.len(),
{
    let x = (slug, "Blocker: "@ + bs[bi].description);
    let d = bs.drop_last();
    if bi == bs.len() - 1 {
        assert(bs.last() == bs[bi]);
        let r = blocker_refs(slug, d, t).push(x);
        assert(r[r.len() - 1] == x);
    } else {
        assert(d[bi] == bs[bi]);
        lemma_blocker_refs_has(slug, d, t, bi);
        if contains(bs.last().description, t) {
            let r = blocker_refs(slug, d, t);
            let i = choose|i: int| 0 <= i < r.len() && r[i] == x;
            assert(r.push((slug, "Blocker: "@ + bs.last().description))[i] == x);
        }
    }
}

proof fn lemma_decision_refs_has(slug: Seq<char>, ds: Seq<DecisionView>, t: Seq<char>, di: int)
    requires
        0 <= di < ds.len(),
        contains(ds[di].choice, t),
    ensures
        decision_refs(slug, ds, t).contains((slug, "Decision: "@ + ds[di].choice)),
    decreases ds.len(),
{
    let x = (slug, "Decision: "@ + ds[di].choice);
    let d = ds.drop_last();
    if di == ds.len() - 1 {
        assert(ds.last() == ds[di]);
        let r = decision_refs(slug, d, t).push(x);
        assert(r[r.len() - 1] == x);
    } else {
        assert(d[di] == ds[di]);
        lemma_decision_refs_has(slug, d, t, di);
        if contains(ds.last().choice, t) {
            let r = decision_refs(slug, d, t);
            let i = choose|i: int| 0 <= i < r.len() && r[i] == x;
            assert(r.push((slug, "Decision: "@ + ds.last().choice))[i] == x);
        }
    }
}

/// What a project says of `t` is among the references of a list of projects that holds it
/// and whose slug is not `slug`.
proof fn lemma_references_has_part(slug: Seq<char>, ps: Seq<ProjectView>, pi: int, x: (Seq<char>, Seq<char>))
    requires
        0 <= pi < ps.len(),
        ps[pi].slug != slug,
        project_refs(ps[pi], "[["@ + slug + "]]"@).contains(x),
    ensures
        references(slug, ps).contains(x),
    decreases ps.len(),
{
    let d = ps.drop_last();
    if pi == ps.len() - 1 {
        assert(ps.last() == ps[pi]);
        lemma_in_concat(references(slug, d), project_refs(ps.last(), link_text(slug)), x);
    } else {
        assert(d[pi] == ps[pi]);
        lemma_references_has_part(slug, d, pi, x);
        if ps.last().slug != slug {
            lemma_in_concat(references(slug, d), project_refs(ps.last(), link_text(slug)), x);
        }
    }
}

/// Every blocker and every decision of another project that links to `slug` is among the
/// references to `slug`, as `Blocker: <description>` and `Decision: <choice>` with that
/// project's slug, and so is its focus, as `Focus: <focus>`, where it links to `slug`.
pub proof fn lemma_references_find_blockers_decisions_focus(
    slug: Seq<char>,
    ps: Seq<ProjectView>,
    pi: int,
)
    requires
        0 <= pi < ps.len(),
        ps[pi].slug != slug,
    ensures
        forall|bi: int|
            0 <= bi < ps[pi].blockers.len() && contains(
                #[trigger] ps[pi].blockers[bi].description,
                "[["@ + slug + "]]"@,
            ) ==> references(slug, ps).contains(
                (ps[pi].slug, "Blocker: "@ + ps[pi].blockers[bi].description),
            ),
        forall|di: int|
            0 <= di < ps[pi].decisions.len() && contains(
                #[trigger] ps[pi].decisions[di].choice,
                "[["@ + slug + "]]"@,
            ) ==> references(slug, ps).contains(
                (ps[pi].slug, "Decision: "@ + ps[pi].decisions[di].choice),
            ),
        contains(ps[pi].current_focus, "[["@ + slug + "]]"@) ==> references(slug, ps).contains(
            (ps[pi].slug, "Focus: "@ + ps[pi].current_focus),
        ),
{
    let p = ps[pi];
    let t = "[["@ + slug + "]]"@;
    let f: Seq<(Seq<char>, Seq<char>)> = if contains(p.current_focus, t) {
        seq![(p.slug, "Focus: "@ + p.current_focus)]
    } else {
        Seq::empty()
    };
    let b = blocker_refs(p.slug, p.blockers, t);
    let dr = decision_refs(p.slug, p.decisions, t);
    let l = log_refs(p.slug, p.log, t);
    assert(project_refs(p, t) == f + b + dr + l);
    assert forall|bi: int|
        0 <= bi < p.blockers.len() && contains(#[trigger] p.blockers[bi].description, t) implies references(
        slug,
        ps,
    ).contains((p.slug, "Blocker: "@ + p.blockers[bi].description)) by {
        let x = (p.slug, "Blocker: "@ + p.blockers[bi].description);
        lemma_blocker_refs_has(p.slug, p.blockers, t, bi);
        lemma_in_concat(f, b, x);
        lemma_in_concat(f + b, dr, x);
        lemma_in_concat(f + b + dr, l, x);
        lemma_references_has_part(slug, ps, pi, x);
    }
    assert forall|di: int|
        0 <= di < p.decisions.len() && contains(#[trigger] p.decisions[di].choice, t) implies references(
        slug,
        ps,
    ).contains((p.slug, "Decision: "@ + p.decisions[di].choice)) by {
        let x = (p.slug, "Decision: "@ + p.decisions[di].choice);
        lemma_decision_refs_has(p.slug, p.decisions, t, di);
        lemma_in_concat(f + b, dr, x);
        lemma_in_concat(f + b + dr, l, x);
        lemma_references_has_part(slug, ps, pi, x);
    }
    if contains(p.current_focus, t) {
        let x = (p.slug, "Focus: "@ + p.current_focus);
        assert(f[0] == x);
        lemma_in_concat(f, b, x);
        lemma_in_concat(f + b, dr, x);
        lemma_in_concat(f + b + dr, l, x);
        lemma_references_has_part(slug, ps, pi, x);
    }
}

// ── Only other projects are named ────────────────────────────────────

proof fn lemma_line_refs_from(slug: Seq<char>, ls: Seq<Seq<char>>, t: Seq<char>)
    ensures
        forall|i: int| 0 <= i < line_refs(slug, ls, t).len() ==> (#[trigger] line_refs(slug, ls, t)[i]).0 == slug,
    decreases ls.len(),
{
    if ls.len() > 0 {
        lemma_line_refs_from(slug, ls.drop_last(), t);
        let prev = line_refs(slug, ls.drop_last(), t);
        let r = line_refs(slug, ls, t);
        assert forall|i: int| 0 <= i < r.len() implies (#[trigger] r[i]).0 == slug by {
            if i < prev.len() {
                assert(r[i] == prev[i]);
            }
        }
    }
}

proof fn lemma_log_refs_from(slug: Seq<char>, es: Seq<LogEntryView>, t: Seq<char>)
    ensures
        forall|i: int| 0 <= i < log_refs(slug, es, t).len() ==> (#[trigger] log_refs(slug, es, t)[i]).0 == slug,
    decreases es.len(),
{
    if es.len() > 0 {
        lemma_log_refs_from(slug, es.drop_last(), t);
        lemma_line_refs_from(slug, es.last().lines, t);
        let a = log_refs(slug, es.drop_last(), t);
        let b = line_refs(slug, es.last().lines, t);
        assert forall|i: int| 0 <= i < (a + b).len() implies (#[trigger] (a + b)[i]).0 == slug by {
            if i < a.len() {
                assert((a + b)[i] == a[i]);
            } else {
                assert((a + b)[i] == b[i - a.len()]);
            }
        }
    }
}

proof fn lemma_blocker_refs_from(slug: Seq<char>, bs: Seq<BlockerView>, t: Seq<char>)
    ensures
        forall|i: int| 0 <= i < blocker_refs(slug, bs, t).len() ==> (#[trigger] blocker_refs(slug, bs, t)[i]).0 == slug,
    decreases bs.len(),
{
    if bs.len() > 0 {
        lemma_blocker_refs_from(slug, bs.drop_last(), t);
        let prev = blocker_refs(slug, bs.drop_last(), t);
        let r = blocker_refs(slug, bs, t);
        assert forall|i: int| 0 <= i < r.len() implies (#[trigger] r[i]).0 == slug by {
            if i < prev.len() {
                assert(r[i] == prev[i]);
            }
        }
    }
}

proof fn lemma_decision_refs_from(slug: Seq<char>, ds: Seq<DecisionView>, t: Seq<char>)
    ensures
        forall|i: int| 0 <= i < decision_refs(slug, ds, t).len() ==> (#[trigger] decision_refs(slug, ds, t)[i]).0 == slug,
    decreases ds.len(),
{
    if ds.len() > 0 {
        lemma_decision_refs_from(slug, ds.drop_last(), t);
        let prev = decision_refs(slug, ds.drop_last(), t);
        let r = decision_refs(slug, ds, t);
        assert forall|i: int| 0 <= i < r.len() implies (#[trigger] r[i]).0 == slug by {
            if i < prev.len() {
                assert(r[i] == prev[i]);
            }
        }
    }
}

/// Every reference to `slug` names, as where it comes from, a project of the list whose slug
/// is not `slug`: a project never refers to itself.
pub proof fn lemma_references_from_other_projects(slug: Seq<char>, ps: Seq<ProjectView>)
    ensures
        forall|i: int|
            0 <= i < references(slug, ps).len() ==> (#[trigger] references(slug, ps)[i]).0 != slug
                && exists|j: int| 0 <= j < ps.len() && ps[j].slug == references(slug, ps)[i].0,
    decreases ps.len(),
{
    if ps.len() > 0 {
        let d = ps.drop_last();
        lemma_references_from_other_projects(slug, d);
        let a = references(slug, d);
        assert forall|i: int| 0 <= i < a.len() implies (#[trigger] a[i]).0 != slug && exists|j: int|
            0 <= j < ps.len() && ps[j].slug == a[i].0 by {
            let j = choose|j: int| 0 <= j < d.len() && d[j].slug == a[i].0;
            assert(ps[j] == d[j]);
        }
        let p = ps.last();
        if p.slug != slug {
            let t = link_text(slug);
            lemma_blocker_refs_from(p.slug, p.blockers, t);
            lemma_decision_refs_from(p.slug, p.decisions, t);
            lemma_log_refs_from(p.slug, p.log, t);
            let f: Seq<(Seq<char>, Seq<char>)> = if contains(p.current_focus, t) {
                seq![(p.slug, "Focus: "@ + p.current_focus)]
            } else {
                Seq::empty()
            };
            let b = blocker_refs(p.slug, p.blockers, t);
            let dr = decision_refs(p.slug, p.decisions, t);
            let l = log_refs(p.slug, p.log, t);
            let pr = project_refs(p, t);
            assert(pr == f + b + dr + l);
            assert forall|i: int| 0 <= i < pr.len() implies (#[trigger] pr[i]).0 == p.slug by {
                if i < f.len() {
                    assert(pr[i] == f[i]);
                } else if i < f.len() + b.len() {
                    assert(pr[i] == b[i - f.len()]);
                } else if i < f.len() + b.len() + dr.len() {
                    assert(pr[i] == dr[i - f.len() - b.len()]);
                } else {
                    assert(pr[i] == l[i - f.len() - b.len() - dr.len()]);
                }
            }
            let r = references(slug, ps);
            assert(r == a + pr);
            assert forall|i: int| 0 <= i < r.len() implies (#[trigger] r[i]).0 != slug && exists|j: int|
                0 <= j < ps.len() && ps[j].slug == r[i].0 by {
                if i < a.len() {
                    assert(r[i] == a[i]);
                } else {
                    assert(r[i] == pr[i - a.len()]);
                    assert(ps[ps.len() - 1] == p);
                }
            }
        }
    }
}

} // verus!
