//! Reading back a project file: the body that `Project::to_markdown` writes for a well-formed
//! project is read by `Project::from_markdown` as the same focus, blockers, decisions and log.
use vstd::prelude::*;
use crate::date::{chrono_parse_ymd, date_text, Date};
use crate::person_laws::{
    ascii_digits_match, lemma_ascii_digits_match, date_reads_back, date_shape, lemma_date_shape, lemma_project_list_join,
    project_name_ok,
};
use crate::project::{blocker_body, blocker_line, blocker_lines, BlockerView, decision_lines, decisions_lines, entry_lines, log_lines, DecisionView, LogEntryView};
use crate::project_md::{blocker_of, blockers_of, checkbox, cut_dated, dated_at, find_dated, find_mention, mention_at, mention_char, unstrike, alt_rest, date_pat_at, decision_head, decisions_from, log_fold, log_header, log_of};
use crate::person::project_list;
use crate::text::{join, lemma_trim_trimmed, strip_leading, trim_end, trim_start};
use crate::person_laws::{lemma_join_concat, lemma_split_join, lemma_trim_pad};
use crate::project_md::{
    apply_section, apply_sections, empty_body, frontmatter_split, parse_project, project_body,
    project_of, reading_panics, section_name, sections_of, BodyView,
};
use crate::yaml::{yaml_error, yaml_parses};
use crate::text::{lemma_trim_end_bounds, lemma_trim_start_bounds};
use crate::project::{
    body_sections, frontmatter_head, frontmatter_tail, frontmatter_text, project_text, tag_lines,
    tags_text, ProjectView,
};
use crate::status::{priority_name, status_name};
use crate::text::{dec, find_from, terminated, lemma_terminated_concat, lemma_find_from_skip};
use crate::yaml::{double_quotes, yaml_plain, yaml_scalar};
use crate::text::split_on;
use crate::issue::lemma_trim_space_value;
use crate::text::{has_prefix_at, is_digit, is_trimmed, is_ws, lacks, run_len, trim};
use crate::issue::{lemma_run_len_prefix};

verus! {

// ── Dates in lines ───────────────────────────────────────────────────

proof fn lemma_date_pat(s: Seq<char>, j: int, t: Seq<char>)
    requires
        0 <= j,
        j + 10 <= s.len(),
        s.subrange(j, j + 10) == t,
        date_shape(t),
        ascii_digits_match(),
    ensures
        date_pat_at(s, j),
{
    assert forall|k: int| j <= k < j + 10 && k != j + 4 && k != j + 7 implies is_digit(
        #[trigger] s[k],
    ) by {
        assert(s[k] == s.subrange(j, j + 10)[k - j]);
    }
    assert(s[j + 4] == s.subrange(j, j + 10)[4]);
    assert(s[j + 7] == s.subrange(j, j + 10)[7]);
}

// ── The log ──────────────────────────────────────────────────────────

/// A log line that its `- ` line reads back: not empty, not ending in white space, one line.
pub open spec fn log_line_ok(x: Seq<char>) -> bool {
    &&& x.len() > 0
    &&& !is_ws(x.last())
    &&& lacks(x, '\n')
}

pub open spec fn entry_ok(e: LogEntryView) -> bool {
    &&& date_reads_back(e.date)
    &&& forall|i: int| 0 <= i < e.lines.len() ==> log_line_ok(#[trigger] e.lines[i])
}

pub open spec fn log_ok(es: Seq<LogEntryView>) -> bool {
    forall|i: int| 0 <= i < es.len() ==> entry_ok(#[trigger] es[i])
}

pub open spec fn log_step(
    st: Option<(Seq<LogEntryView>, Option<LogEntryView>)>,
    l: Seq<char>,
) -> Option<(Seq<LogEntryView>, Option<LogEntryView>)> {
    match st {
        None => None,
        Some((done, cur)) => match log_header(l) {
            Some(dt) => match chrono_parse_ymd(dt) {
                None => None,
                Some(d) => Some(
                    (
                        match cur {
                            Some(e) => done.push(e),
                            None => done,
                        },
                        Some(LogEntryView { date: d, lines: Seq::empty() }),
                    ),
                ),
            },
            None => match cur {
                Some(e) => if has_prefix_at(trim(l), 0, "- "@) {
                    Some(
                        (
                            done,
                            Some(LogEntryView { date: e.date, lines: e.lines.push(trim(l).skip(2)) }),
                        ),
                    )
                } else {
                    Some((done, cur))
                },
                None => Some((done, None)),
            },
        },
    }
}

pub open spec fn log_steps(
    st: Option<(Seq<LogEntryView>, Option<LogEntryView>)>,
    ls: Seq<Seq<char>>,
) -> Option<(Seq<LogEntryView>, Option<LogEntryView>)>
    decreases ls.len(),
{
    if ls.len() == 0 {
        st
    } else {
        log_step(log_steps(st, ls.drop_last()), ls.last())
    }
}

proof fn lemma_log_fold_steps(ls: Seq<Seq<char>>)
    ensures
        log_fold(ls) == log_steps(Some((Seq::<LogEntryView>::empty(), None)), ls),
    decreases ls.len(),
{
    if ls.len() > 0 {
        lemma_log_fold_steps(ls.drop_last());
    }
}

proof fn lemma_log_steps_concat(
    st: Option<(Seq<LogEntryView>, Option<LogEntryView>)>,
    a: Seq<Seq<char>>,
    b: Seq<Seq<char>>,
)
    ensures
        log_steps(st, a + b) == log_steps(log_steps(st, a), b),
    decreases b.len(),
{
    if b.len() == 0 {
        assert(a + b =~= a);
    } else {
        lemma_log_steps_concat(st, a, b.drop_last());
        assert((a + b).drop_last() =~= a + b.drop_last());
        assert((a + b).last() == b.last());
    }
}

proof fn lemma_log_header(d: Date)
    requires
        date_reads_back(d),
        ascii_digits_match(),
    ensures
        log_header("### "@ + date_text(d)) == Some(date_text(d)),
{
    reveal_strlit("### ");
    reveal_strlit("###");
    let t = date_text(d);
    lemma_date_shape(d);
    let l = "### "@ + t;
    assert(l =~= seq!['#', '#', '#', ' '] + t);
    assert(l.skip(3) =~= seq![' '] + t);
    assert(is_digit(t[0]));
    lemma_run_len_prefix(seq![' '], t, |c: char| is_ws(c));
    assert(l.subrange(0, 3) =~= "###"@);
    assert(l.subrange(4, 14) =~= t);
    lemma_date_pat(l, 4, t);
}

proof fn lemma_log_item_step(
    done: Seq<LogEntryView>,
    e: LogEntryView,
    x: Seq<char>,
)
    requires
        log_line_ok(x),
    ensures
        log_step(Some((done, Some(e))), "- "@ + x) == Some(
            (done, Some(LogEntryView { date: e.date, lines: e.lines.push(x) })),
        ),
{
    reveal_strlit("- ");
    reveal_strlit("###");
    let l = "- "@ + x;
    assert(l =~= seq!['-', ' '] + x);
    assert(l.subrange(0, 3)[0] == '-');
    assert(is_trimmed(l)) by {
        assert(l.last() == x.last());
    }
    crate::text::lemma_trim_trimmed(l);
    assert(l.subrange(0, 2) =~= "- "@);
    assert(l.skip(2) =~= x);
}

proof fn lemma_log_blank_step(done: Seq<LogEntryView>, cur: Option<LogEntryView>)
    ensures
        log_step(Some((done, cur)), Seq::<char>::empty()) == Some((done, cur)),
{
    reveal_strlit("###");
    reveal_strlit("- ");
    let l = Seq::<char>::empty();
    assert(!has_prefix_at(l, 0, "###"@));
    assert(log_header(l) is None);
    assert(trim(l) =~= l);
    assert(!has_prefix_at(trim(l), 0, "- "@));
}

/// Each log line after `- `.
pub open spec fn item_lines(xs: Seq<Seq<char>>) -> Seq<Seq<char>> {
    Seq::new(xs.len(), |i: int| "- "@ + xs[i])
}

proof fn lemma_log_items(done: Seq<LogEntryView>, e: LogEntryView, xs: Seq<Seq<char>>)
    requires
        forall|i: int| 0 <= i < xs.len() ==> log_line_ok(#[trigger] xs[i]),
    ensures
        log_steps(Some((done, Some(e))), item_lines(xs)) == Some(
            (done, Some(LogEntryView { date: e.date, lines: e.lines + xs })),
        ),
    decreases xs.len(),
{
    if xs.len() == 0 {
        assert(item_lines(xs) =~= Seq::<Seq<char>>::empty());
        assert(e.lines + xs =~= e.lines);
    } else {
        let ys = xs.drop_last();
        assert forall|i: int| 0 <= i < ys.len() implies log_line_ok(#[trigger] ys[i]) by {
            assert(ys[i] == xs[i]);
        }
        lemma_log_items(done, e, ys);
        assert(item_lines(xs).drop_last() =~= item_lines(ys));
        assert(item_lines(xs).last() == "- "@ + xs.last());
        assert(log_line_ok(xs[xs.len() - 1]));
        let e1 = LogEntryView { date: e.date, lines: e.lines + ys };
        lemma_log_item_step(done, e1, xs.last());
        assert(e1.lines.push(xs.last()) =~= e.lines + xs);
    }
}

proof fn lemma_log_header_step(done: Seq<LogEntryView>, cur: Option<LogEntryView>, d: Date)
    requires
        date_reads_back(d),
        ascii_digits_match(),
    ensures
        log_step(Some((done, cur)), "### "@ + date_text(d)) == Some(
            (
                match cur {
                    Some(c) => done.push(c),
                    None => done,
                },
                Some(LogEntryView { date: d, lines: Seq::empty() }),
            ),
        ),
{
    lemma_log_header(d);
    crate::date::lemma_date_read_back(d);
}

#[verifier::spinoff_prover]
#[verifier::rlimit(40)]
proof fn lemma_log_entry(done: Seq<LogEntryView>, cur: Option<LogEntryView>, e: LogEntryView)
    requires
        entry_ok(e),
        ascii_digits_match(),
    ensures
        log_steps(Some((done, cur)), entry_lines(e)) == Some(
            (
                match cur {
                    Some(c) => done.push(c),
                    None => done,
                },
                Some(e),
            ),
        ),
{
    let st = Some((done, cur));
    let h = seq!["### "@ + date_text(e.date)];
    assert(entry_lines(e) =~= h + item_lines(e.lines));
    lemma_log_steps_concat(st, h, item_lines(e.lines));
    assert(h.drop_last() =~= Seq::<Seq<char>>::empty());
    assert(log_steps(st, h.drop_last()) == st);
    assert(log_steps(st, h) == log_step(st, "### "@ + date_text(e.date)));
    let done1 = match cur {
        Some(c) => done.push(c),
        None => done,
    };
    let e0 = LogEntryView { date: e.date, lines: Seq::empty() };
    lemma_log_header_step(done, cur, e.date);
    assert(log_steps(st, h) == Some((done1, Some(e0))));
    lemma_log_items(done1, e0, e.lines);
    assert(e0.lines + e.lines =~= e.lines);
}

proof fn lemma_log_lines_steps(es: Seq<LogEntryView>)
    requires
        es.len() > 0,
        log_ok(es),
        ascii_digits_match(),
    ensures
        log_steps(Some((Seq::<LogEntryView>::empty(), None)), log_lines(es)) == Some(
            (es.drop_last(), Some(es.last())),
        ),
    decreases es.len(),
{
    let init = Some((Seq::<LogEntryView>::empty(), None::<LogEntryView>));
    assert(entry_ok(es[es.len() - 1]));
    if es.len() == 1 {
        assert(es.drop_last() =~= Seq::<LogEntryView>::empty());
        assert(log_lines(es.drop_last()) =~= Seq::<Seq<char>>::empty());
        assert(log_lines(es) =~= Seq::<Seq<char>>::empty() + entry_lines(es.last()));
        lemma_log_steps_concat(init, Seq::<Seq<char>>::empty(), entry_lines(es.last()));
        lemma_log_entry(Seq::<LogEntryView>::empty(), None, es.last());
    } else {
        let q = es.drop_last();
        assert forall|i: int| 0 <= i < q.len() implies entry_ok(#[trigger] q[i]) by {
            assert(q[i] == es[i]);
        }
        lemma_log_lines_steps(q);
        lemma_log_steps_concat(init, log_lines(q), entry_lines(es.last()));
        lemma_log_entry(q.drop_last(), Some(q.last()), es.last());
        assert(q.drop_last().push(q.last()) =~= q);
    }
}

/// The log section's lines, with or without a blank line after them, read back as the log.
pub(crate) proof fn lemma_log_round_trip(es: Seq<LogEntryView>, blank: bool)
    requires
        es.len() > 0,
        log_ok(es),
        ascii_digits_match(),
    ensures
        log_of(
            log_lines(es) + if blank {
                seq![Seq::<char>::empty()]
            } else {
                Seq::<Seq<char>>::empty()
            },
        ) == Some(es),
{
    let init = Some((Seq::<LogEntryView>::empty(), None::<LogEntryView>));
    let tail = if blank {
        seq![Seq::<char>::empty()]
    } else {
        Seq::<Seq<char>>::empty()
    };
    lemma_log_lines_steps(es);
    lemma_log_fold_steps(log_lines(es) + tail);
    lemma_log_steps_concat(init, log_lines(es), tail);
    let mid = Some((es.drop_last(), Some(es.last())));
    if blank {
        assert(tail.drop_last() =~= Seq::<Seq<char>>::empty());
        assert(log_steps(mid, tail.drop_last()) == mid);
        lemma_log_blank_step(es.drop_last(), Some(es.last()));
        assert(log_steps(mid, tail) == mid);
    } else {
        assert(tail =~= Seq::<Seq<char>>::empty());
        assert(log_steps(mid, tail) == mid);
    }
    assert(log_fold(log_lines(es) + tail) == mid);
    assert(es.drop_last().push(es.last()) =~= es);
}

// ── Decisions ────────────────────────────────────────────────────────

/// A decision that its lines read back: a date that reads back, a choice on one line,
/// trimmed and not empty, and alternatives that the list reads back.
pub open spec fn decision_ok(d: DecisionView) -> bool {
    &&& date_reads_back(d.date)
    &&& d.choice.len() > 0
    &&& is_trimmed(d.choice)
    &&& lacks(d.choice, '\n')
    &&& forall|i: int| 0 <= i < d.alternatives.len() ==> project_name_ok(#[trigger] d.alternatives[i])
}

pub open spec fn decisions_ok(ds: Seq<DecisionView>) -> bool {
    forall|i: int| 0 <= i < ds.len() ==> decision_ok(#[trigger] ds[i])
}

proof fn lemma_decisions_from_shift(a: Seq<Seq<char>>, b: Seq<Seq<char>>, j: int)
    requires
        0 <= j,
    ensures
        decisions_from(a + b, a.len() + j) == decisions_from(b, j),
    decreases b.len() - j,
{
    let l = a + b;
    let i = a.len() + j;
    if j < b.len() {
        assert(l[i] == b[j]);
        if j + 1 < b.len() {
            assert(l[i + 1] == b[j + 1]);
        }
        lemma_decisions_from_shift(a, b, j + 1);
        if j + 2 <= b.len() {
            lemma_decisions_from_shift(a, b, j + 2);
        }
    }
}

proof fn lemma_decisions_lines_front(ds: Seq<DecisionView>)
    requires
        ds.len() > 0,
    ensures
        decisions_lines(ds) == decision_lines(ds[0]) + decisions_lines(ds.drop_first()),
    decreases ds.len(),
{
    let q = ds.drop_last();
    if q.len() == 0 {
        assert(ds.drop_first() =~= Seq::<DecisionView>::empty());
        assert(ds.last() == ds[0]);
        assert(decisions_lines(q) =~= Seq::<Seq<char>>::empty());
        assert(decisions_lines(ds) =~= decision_lines(ds[0]));
        assert(decisions_lines(ds.drop_first()) =~= Seq::<Seq<char>>::empty());
        assert(decision_lines(ds[0]) + Seq::<Seq<char>>::empty() =~= decision_lines(ds[0]));
    } else {
        lemma_decisions_lines_front(q);
        assert(ds.drop_first().drop_last() =~= q.drop_first());
        assert(ds.drop_first().last() == ds.last());
        assert(q[0] == ds[0]);
        assert(decisions_lines(ds.drop_first()) == decisions_lines(q.drop_first()) + decision_lines(
            ds.last(),
        ));
        assert(decisions_lines(ds) =~= decision_lines(ds[0]) + decisions_lines(ds.drop_first()));
    }
}

#[verifier::spinoff_prover]
#[verifier::rlimit(40)]
proof fn lemma_decision_head(d: DecisionView)
    requires
        decision_ok(d),
        ascii_digits_match(),
    ensures
        ({
            let l = "- **"@ + date_text(d.date) + ":** "@ + d.choice;
            &&& trim(l) == l
            &&& decision_head(l) == Some((date_text(d.date), d.choice))
            &&& alt_rest(l) is None
            &&& lacks(l, '\n')
        }),
{
    reveal_strlit("- **");
    reveal_strlit(":** ");
    reveal_strlit("**");
    reveal_strlit(":**");
    reveal_strlit("Alternatives:");
    let t = date_text(d.date);
    lemma_date_shape(d.date);
    let l = "- **"@ + t + ":** "@ + d.choice;
    let c = d.choice;
    assert(l =~= seq!['-', ' ', '*', '*'] + t + seq![':', '*', '*', ' '] + c);
    assert(is_trimmed(l)) by {
        assert(l.last() == c.last());
    }
    lemma_trim_trimmed(l);
    assert(l.skip(1) =~= seq![' '] + l.skip(2));
    assert(l.skip(2)[0] == '*');
    lemma_run_len_prefix(seq![' '], l.skip(2), |ch: char| is_ws(ch));
    assert(l.subrange(2, 4) =~= "**"@);
    assert(l.subrange(4, 14) =~= t);
    lemma_date_pat(l, 4, t);
    assert(l.subrange(14, 17) =~= ":**"@);
    assert(l.skip(17) =~= seq![' '] + c);
    lemma_trim_space_value(c);
    if l.len() >= 15 {
        assert(l.subrange(2, 15)[0] == '*');
        assert("Alternatives:"@[0] == 'A');
    }
    assert forall|k: int| 0 <= k < l.len() implies #[trigger] l[k] != '\n' by {
        if 4 <= k < 14 {
            assert(l[k] == t[k - 4]);
            if k - 4 != 4 && k - 4 != 7 {
                assert(is_digit(t[k - 4]));
            }
        } else if k >= 18 {
            assert(l[k] == c[k - 18]);
        }
    }
}

#[verifier::spinoff_prover]
#[verifier::rlimit(40)]
proof fn lemma_alt_line(alts: Seq<Seq<char>>)
    requires
        alts.len() > 0,
        forall|i: int| 0 <= i < alts.len() ==> project_name_ok(#[trigger] alts[i]),
    ensures
        ({
            let l = "  - Alternatives: "@ + join(alts, ", "@);
            &&& alt_rest(trim(l)) matches Some(r) && project_list(r) == alts
            &&& lacks(l, '\n')
        }),
{
    reveal_strlit("  - Alternatives: ");
    reveal_strlit("Alternatives:");
    let j = join(alts, ", "@);
    lemma_project_list_join(alts);
    let l = "  - Alternatives: "@ + j;
    let m = seq!['-', ' ', 'A', 'l', 't', 'e', 'r', 'n', 'a', 't', 'i', 'v', 'e', 's', ':', ' '] + j;
    assert(l =~= seq![' ', ' '] + m);
    assert(trim_start(l) == trim_start(m)) by {
        let l1 = seq![' '] + m;
        assert(l.drop_first() =~= l1);
        assert(l1.drop_first() =~= m);
        assert(l[0] == ' ');
        assert(l1[0] == ' ');
        assert(trim_start(l) == trim_start(l1));
        assert(trim_start(l1) == trim_start(m));
    }
    assert(is_trimmed(m)) by {
        assert(m.last() == j.last());
    }
    lemma_trim_trimmed(m);
    assert(trim(l) == trim_end(trim_start(l)));
    assert(trim(l) == m);
    assert(m.skip(1) =~= seq![' '] + m.skip(2));
    assert(m.skip(2)[0] == 'A');
    lemma_run_len_prefix(seq![' '], m.skip(2), |ch: char| is_ws(ch));
    assert(m.subrange(2, 15) =~= "Alternatives:"@);
    assert(m.skip(15) =~= seq![' '] + j);
    assert forall|k: int| 0 <= k < l.len() implies #[trigger] l[k] != '\n' by {
        if k >= 18 {
            assert(l[k] == j[k - 18]);
        }
    }
}

/// The decisions section's lines, with or without a blank line after them, read back as the
/// decisions.
#[verifier::spinoff_prover]
#[verifier::rlimit(40)]
pub(crate) proof fn lemma_decisions_round_trip(ds: Seq<DecisionView>, blank: bool)
    requires
        decisions_ok(ds),
        ascii_digits_match(),
    ensures
        decisions_from(
            decisions_lines(ds) + if blank {
                seq![Seq::<char>::empty()]
            } else {
                Seq::<Seq<char>>::empty()
            },
            0,
        ) == Some(ds),
    decreases ds.len(),
{
    let tail = if blank {
        seq![Seq::<char>::empty()]
    } else {
        Seq::<Seq<char>>::empty()
    };
    if ds.len() == 0 {
        assert(decisions_lines(ds) =~= Seq::<Seq<char>>::empty());
        assert(decisions_lines(ds) + tail =~= tail);
        if blank {
            assert(trim(Seq::<char>::empty()) =~= Seq::<char>::empty());
            assert(decision_head(Seq::<char>::empty()) is None);
            assert(decisions_from(tail, 1) == Some(Seq::<DecisionView>::empty()));
        }
        assert(decisions_from(tail, 0) =~= Some(Seq::<DecisionView>::empty()));
    } else {
        let d = ds[0];
        let rest = ds.drop_first();
        assert(decision_ok(d));
        assert forall|i: int| 0 <= i < rest.len() implies decision_ok(#[trigger] rest[i]) by {
            assert(rest[i] == ds[i + 1]);
        }
        lemma_decisions_round_trip(rest, blank);
        lemma_decisions_lines_front(ds);
        let dl = decision_lines(d);
        let after = decisions_lines(rest) + tail;
        let lines = decisions_lines(ds) + tail;
        assert(lines =~= dl + after);
        lemma_decision_head(d);
        crate::date::lemma_date_read_back(d.date);
        let head = "- **"@ + date_text(d.date) + ":** "@ + d.choice;
        assert(lines[0] == head);
        lemma_decisions_from_shift(dl, after, 0);
        if d.alternatives.len() > 0 {
            lemma_alt_line(d.alternatives);
            assert(lines[1] == "  - Alternatives: "@ + join(d.alternatives, ", "@));
            assert(dl.len() == 2);
        } else {
            assert(dl.len() == 1);
            if 1 < lines.len() {
                assert(lines[1] == after[0]);
                if rest.len() > 0 {
                    lemma_decisions_lines_front(rest);
                    lemma_decision_head(rest[0]);
                    assert(after[0] == decision_lines(rest[0])[0]);
                } else {
                    assert(decisions_lines(rest) =~= Seq::<Seq<char>>::empty());
                    assert(after[0] == Seq::<char>::empty());
                    assert(trim(Seq::<char>::empty()) =~= Seq::<char>::empty());
                }
                assert(alt_rest(trim(lines[1])) is None);
            }
            assert(d.alternatives =~= Seq::<Seq<char>>::empty());
        }
        assert(decisions_from(after, 0) == Some(rest));
        assert(seq![d] + rest =~= ds);
    }
}

// ── Blockers ─────────────────────────────────────────────────────────

/// A person named on a blocker line that reads back: `@`, then mention characters, the first
/// not `@`; no line break, no `(`, and no white space at the end.
pub open spec fn mention_ok(x: Seq<char>) -> bool {
    &&& x.len() >= 2
    &&& x[0] == '@'
    &&& x[1] != '@'
    &&& forall|i: int| 1 <= i < x.len() ==> mention_char(#[trigger] x[i])
    &&& lacks(x, '\n')
    &&& lacks(x, '(')
    &&& !is_ws(x.last())
}

/// A blocker that its line reads back: a one-line description, trimmed and not empty, with
/// no `(` and no `@`; only the date that its state writes; dates that read back.
pub open spec fn blocker_ok(b: BlockerView) -> bool {
    &&& b.description.len() > 0
    &&& is_trimmed(b.description)
    &&& lacks(b.description, '\n')
    &&& lacks(b.description, '(')
    &&& lacks(b.description, '@')
    &&& (b.resolved ==> b.since is None)
    &&& (!b.resolved ==> b.resolved_date is None)
    &&& (b.since matches Some(d) ==> date_reads_back(d))
    &&& (b.resolved_date matches Some(d) ==> date_reads_back(d))
    &&& (b.person matches Some(x) ==> mention_ok(x))
}

pub open spec fn blockers_ok(bs: Seq<BlockerView>) -> bool {
    forall|i: int| 0 <= i < bs.len() ==> blocker_ok(#[trigger] bs[i])
}

/// The description and the person.
pub open spec fn blocker_base(b: BlockerView) -> Seq<char> {
    b.description + match b.person {
        Some(x) => " @"@ + strip_leading(x, '@'),
        None => Seq::empty(),
    }
}

proof fn lemma_find_dated_skip(s: Seq<char>, a: int, b: int, word: Seq<char>)
    requires
        0 <= a <= b <= s.len(),
        word.len() >= 1,
        word[0] == '(',
        forall|k: int| a <= k < b ==> s[k] != '(',
    ensures
        find_dated(s, a, word) == find_dated(s, b, word),
    decreases b - a,
{
    if a < b {
        if has_prefix_at(s, a, word) {
            assert(s.subrange(a, a + word.len())[0] == s[a]);
        }
        lemma_find_dated_skip(s, a + 1, b, word);
    }
}

proof fn lemma_no_dated(s: Seq<char>, i: int, word: Seq<char>)
    requires
        0 <= i,
        word.len() >= 1,
        word[0] == '(',
        lacks(s, '('),
    ensures
        find_dated(s, i, word) is None,
    decreases s.len() + 1 - i,
{
    if i <= s.len() {
        if has_prefix_at(s, i, word) {
            assert(s.subrange(i, i + word.len())[0] == s[i]);
        }
        lemma_no_dated(s, i + 1, word);
    }
}

/// `u`, then ` word date)`: the dated note is cut off and its date read.
#[verifier::spinoff_prover]
#[verifier::rlimit(40)]
proof fn lemma_cut_dated_here(u: Seq<char>, word: Seq<char>, d: Date)
    requires
        u.len() > 0,
        is_trimmed(u),
        lacks(u, '('),
        word.len() >= 1,
        word[0] == '(',
        date_reads_back(d),
        ascii_digits_match(),
    ensures
        cut_dated(u + seq![' '] + word + seq![' '] + date_text(d) + seq![')'], word) == (
            u,
            Some(d),
        ),
{
    let t = date_text(d);
    lemma_date_shape(d);
    let s = u + seq![' '] + word + seq![' '] + t + seq![')'];
    let i: int = u.len() as int + 1;
    let wl = word.len() as int;
    assert forall|k: int| 0 <= k < i implies s[k] != '(' by {
        if k < u.len() {
            assert(s[k] == u[k]);
        }
    }
    lemma_find_dated_skip(s, 0, i, word);
    assert(s.subrange(i, i + wl) =~= word);
    assert(s.skip(i + wl) =~= seq![' '] + (t + seq![')']));
    assert(is_digit(t[0]));
    assert((t + seq![')'])[0] == t[0]);
    lemma_run_len_prefix(seq![' '], t + seq![')'], |c: char| is_ws(c));
    let j = i + wl + 1;
    assert(s.subrange(j, j + 10) =~= t);
    lemma_date_pat(s, j, t);
    assert(s[j + 10] == ')');
    assert(dated_at(s, i, word) == Some(j));
    assert(find_dated(s, i, word) == Some((i, j)));
    assert(s.subrange(0, i) =~= u + seq![' ']);
    lemma_trim_pad(u, seq![' ']);
}

proof fn lemma_find_mention_skip(s: Seq<char>, a: int, b: int)
    requires
        0 <= a <= b <= s.len(),
        forall|k: int| a <= k < b ==> s[k] != '@',
    ensures
        find_mention(s, a) == find_mention(s, b),
    decreases b - a,
{
    if a < b {
        lemma_find_mention_skip(s, a + 1, b);
    }
}

proof fn lemma_no_mention(s: Seq<char>, i: int)
    requires
        0 <= i,
        lacks(s, '@'),
    ensures
        find_mention(s, i) is None,
    decreases s.len() + 1 - i,
{
    if i <= s.len() {
        if 0 <= i < s.len() {
            assert(s[i] != '@');
        }
        lemma_no_mention(s, i + 1);
    }
}

/// What the base of a blocker's text holds: its description and its person read back.
#[verifier::spinoff_prover]
#[verifier::rlimit(40)]
proof fn lemma_base(b: BlockerView)
    requires
        blocker_ok(b),
    ensures
        ({
            let base = blocker_base(b);
            &&& base.len() > 0
            &&& is_trimmed(base)
            &&& lacks(base, '(')
            &&& lacks(base, '\n')
            &&& match find_mention(base, 0) {
                Some((st, en)) => b.person == Some(seq!['@'] + base.subrange(st + 1, en)) && trim(
                    trim(base.subrange(0, st)) + seq![' '] + trim(
                        base.subrange(en, base.len() as int),
                    ),
                ) == b.description,
                None => b.person is None && base == b.description,
            }
        }),
{
    reveal_strlit(" @");
    let desc = b.description;
    let base = blocker_base(b);
    match b.person {
        None => {
            assert(base =~= desc);
            lemma_no_mention(base, 0);
        },
        Some(x) => {
            assert(mention_ok(x));
            let y = x.skip(1);
            assert(strip_leading(x, '@') == strip_leading(x.drop_first(), '@'));
            assert(x.drop_first() =~= y);
            assert(y[0] == x[1]);
            assert(strip_leading(y, '@') == y);
            let n = desc.len() as int;
            assert(base =~= desc + seq![' ', '@'] + y);
            assert forall|k: int| 0 <= k < n + 1 implies base[k] != '@' by {
                if k < n {
                    assert(base[k] == desc[k]);
                }
            }
            lemma_find_mention_skip(base, 0, n + 1);
            assert(base[n + 2] == y[0]);
            assert(base.skip(n + 2) =~= y + Seq::<char>::empty());
            assert forall|k: int| 0 <= k < y.len() implies mention_char(#[trigger] y[k]) by {
                assert(y[k] == x[k + 1]);
            }
            lemma_run_len_prefix(y, Seq::<char>::empty(), |c: char| mention_char(c));
            assert(mention_at(base, n + 1) == Some(base.len() as int));
            assert(find_mention(base, n + 1) == Some((n + 1, base.len() as int)));
            assert(seq!['@'] + base.subrange(n + 2, base.len() as int) =~= x);
            assert(base.subrange(0, n + 1) =~= desc + seq![' ']);
            lemma_trim_pad(desc, seq![' ']);
            assert(base.subrange(base.len() as int, base.len() as int) =~= Seq::<char>::empty());
            assert(trim(Seq::<char>::empty()) =~= Seq::<char>::empty());
            lemma_trim_pad(desc, seq![' ']);
            assert(desc + seq![' '] + Seq::<char>::empty() =~= desc + seq![' ']);
            assert(is_trimmed(base)) by {
                assert(base[0] == desc[0]);
                assert(base.last() == x.last());
            }
            assert forall|k: int| 0 <= k < base.len() implies #[trigger] base[k] != '(' && base[k]
                != '\n' by {
                if k < n {
                    assert(base[k] == desc[k]);
                } else if k >= n + 2 {
                    assert(base[k] == x[k - n - 1]);
                }
            }
        },
    }
}

/// A blocker's line reads back as the blocker.
#[verifier::spinoff_prover]
#[verifier::rlimit(80)]
proof fn lemma_blocker_line(b: BlockerView)
    requires
        blocker_ok(b),
        ascii_digits_match(),
    ensures
        trim(blocker_line(b)) == blocker_line(b),
        blocker_of(blocker_line(b)) == Some(b),
        lacks(blocker_line(b), '\n'),
{
    reveal_strlit("- [");
    reveal_strlit("x");
    reveal_strlit(" ");
    reveal_strlit("] ");
    reveal_strlit("~~");
    reveal_strlit(" (since ");
    reveal_strlit(" (resolved ");
    reveal_strlit("(since");
    reveal_strlit("(resolved");
    reveal_strlit(")");
    lemma_base(b);
    let base = blocker_base(b);
    let body = blocker_body(b);
    let mark = if b.resolved { 'x' } else { ' ' };
    let l = blocker_line(b);
    assert(l =~= seq!['-', ' ', '[', mark, ']', ' '] + body);
    // the text after the check box, and what it reads as before the mention is taken out
    let text1 = if b.resolved {
        let u = seq!['~', '~'] + base + seq!['~', '~'];
        assert(is_trimmed(u));
        assert forall|k: int| 0 <= k < u.len() implies #[trigger] u[k] != '(' && u[k] != '\n' by {
            if 2 <= k < u.len() - 2 {
                assert(u[k] == base[k - 2]);
            }
        }
        match b.resolved_date {
            Some(d) => {
                assert(body =~= u + seq![' '] + "(resolved"@ + seq![' '] + date_text(d) + seq![')']);
                lemma_cut_dated_here(u, "(resolved"@, d);
                lemma_date_shape(d);
                assert forall|k: int| 0 <= k < body.len() implies #[trigger] body[k] != '\n' by {
                    if k < u.len() {
                        assert(body[k] == u[k]);
                    } else if u.len() + 11 <= k < u.len() + 21 {
                        assert(body[k] == date_text(d)[k - u.len() - 11]);
                        if k - u.len() - 11 != 4 && k - u.len() - 11 != 7 {
                            assert(is_digit(date_text(d)[k - u.len() - 11]));
                        }
                    }
                }
                assert(body.last() == ')');
            },
            None => {
                assert(body =~= u);
                lemma_no_dated(u, 0, "(resolved"@);
            },
        }
        assert(cut_dated(body, "(resolved"@).0 == u);
        assert(unstrike(u) =~= base);
        base
    } else {
        match b.since {
            Some(d) => {
                assert(body =~= base + seq![' '] + "(since"@ + seq![' '] + date_text(d) + seq![')']);
                lemma_cut_dated_here(base, "(since"@, d);
                lemma_date_shape(d);
                let n = base.len() as int;
                assert forall|k: int| 0 <= k < body.len() implies #[trigger] body[k] != '\n' by {
                    if k < n {
                        assert(body[k] == base[k]);
                    } else if n + 8 <= k < n + 18 {
                        assert(body[k] == date_text(d)[k - n - 8]);
                        if k - n - 8 != 4 && k - n - 8 != 7 {
                            assert(is_digit(date_text(d)[k - n - 8]));
                        }
                    }
                }
                assert(body.last() == ')');
            },
            None => {
                assert(body =~= base);
                lemma_no_dated(base, 0, "(since"@);
            },
        }
        assert(cut_dated(body, "(since"@).0 == base);
        base
    };
    assert(body[0] != ' ' && !is_ws(body[0])) by {
        if b.resolved {
            assert(body[0] == '~');
        } else {
            assert(body[0] == base[0]);
        }
    }
    assert(is_trimmed(l)) by {
        assert(l.last() == body.last());
    }
    lemma_trim_trimmed(l);
    assert(l.skip(1) =~= seq![' '] + l.skip(2));
    assert(l.skip(2)[0] == '[');
    lemma_run_len_prefix(seq![' '], l.skip(2), |c: char| is_ws(c));
    assert(l.skip(5) =~= seq![' '] + body);
    assert(trim_start(seq![' '] + body) == trim_start(body)) by {
        assert((seq![' '] + body).drop_first() =~= body);
    }
    assert(trim_start(body) == body);
    assert(checkbox(l) == Some((b.resolved, body)));
    assert(text1 == base);
    assert forall|k: int| 0 <= k < l.len() implies #[trigger] l[k] != '\n' by {
        if k >= 6 {
            assert(l[k] == body[k - 6]);
        }
    }
}

/// The blockers section's lines, with or without a blank line after them, read back as the
/// blockers.
pub(crate) proof fn lemma_blockers_round_trip(bs: Seq<BlockerView>, blank: bool)
    requires
        blockers_ok(bs),
        ascii_digits_match(),
    ensures
        blockers_of(
            blocker_lines(bs) + if blank {
                seq![Seq::<char>::empty()]
            } else {
                Seq::<Seq<char>>::empty()
            },
        ) == bs,
    decreases bs.len(), if blank { 1int } else { 0int },
{
    let tail = if blank {
        seq![Seq::<char>::empty()]
    } else {
        Seq::<Seq<char>>::empty()
    };
    let ls = blocker_lines(bs);
    if blank {
        assert((ls + tail).drop_last() =~= ls);
        assert((ls + tail).last() == Seq::<char>::empty());
        assert(trim(Seq::<char>::empty()) =~= Seq::<char>::empty());
        assert(checkbox(Seq::<char>::empty()) is None);
        lemma_blockers_round_trip(bs, false);
        assert(ls + Seq::<Seq<char>>::empty() =~= ls);
    } else {
        assert(ls + tail =~= ls);
        if bs.len() == 0 {
            assert(ls =~= Seq::<Seq<char>>::empty());
        } else {
            let q = bs.drop_last();
            assert forall|i: int| 0 <= i < q.len() implies blocker_ok(#[trigger] q[i]) by {
                assert(q[i] == bs[i]);
            }
            lemma_blockers_round_trip(q, false);
            assert(blocker_lines(q) + Seq::<Seq<char>>::empty() =~= blocker_lines(q));
            assert(ls.drop_last() =~= blocker_lines(q));
            assert(ls.last() == blocker_line(bs.last()));
            assert(blocker_ok(bs[bs.len() - 1]));
            lemma_blocker_line(bs.last());
            assert(q.push(bs.last()) =~= bs);
        }
    }
}

// ── Sections ─────────────────────────────────────────────────────────

/// A section: its name and its lines after the heading.
pub open spec fn group_lines_of(g: (Seq<char>, Seq<Seq<char>>)) -> Seq<Seq<char>> {
    seq!["## "@ + g.0] + g.1
}

/// The lines of all sections, with an empty line between one section and the next.
pub open spec fn groups_lines(gs: Seq<(Seq<char>, Seq<Seq<char>>)>) -> Seq<Seq<char>>
    decreases gs.len(),
{
    if gs.len() == 0 {
        Seq::empty()
    } else if gs.len() == 1 {
        group_lines_of(gs[0])
    } else {
        groups_lines(gs.drop_last()) + seq![Seq::<char>::empty()] + group_lines_of(gs.last())
    }
}

/// Each section's text.
pub open spec fn groups_texts(gs: Seq<(Seq<char>, Seq<Seq<char>>)>) -> Seq<Seq<char>> {
    Seq::new(gs.len(), |k: int| join(group_lines_of(gs[k]), "\n"@))
}

proof fn lemma_groups_lines_len(gs: Seq<(Seq<char>, Seq<Seq<char>>)>)
    requires
        gs.len() >= 1,
    ensures
        groups_lines(gs).len() >= 1,
    decreases gs.len(),
{
    if gs.len() > 1 {
        lemma_groups_lines_len(gs.drop_last());
    }
}

proof fn lemma_groups_text(gs: Seq<(Seq<char>, Seq<Seq<char>>)>)
    requires
        gs.len() >= 1,
    ensures
        join(groups_texts(gs), "\n\n"@) == join(groups_lines(gs), seq!['\n']),
    decreases gs.len(),
{
    reveal_strlit("\n");
    reveal_strlit("\n\n");
    let nl = seq!['\n'];
    assert("\n"@ =~= nl);
    assert("\n\n"@ =~= nl + nl);
    let ts = groups_texts(gs);
    if gs.len() == 1 {
        assert(ts.len() == 1);
        assert(join(ts, "\n\n"@) == ts[0]);
    } else {
        let q = gs.drop_last();
        lemma_groups_text(q);
        lemma_groups_lines_len(q);
        let gl = group_lines_of(gs.last());
        assert(ts.drop_last() =~= groups_texts(q));
        assert(ts.last() == join(gl, nl));
        assert(join(ts, "\n\n"@) == join(groups_texts(q), "\n\n"@) + "\n\n"@ + join(gl, nl));
        let e = seq![Seq::<char>::empty()];
        lemma_join_concat(groups_lines(q), e, nl);
        lemma_join_concat(groups_lines(q) + e, gl, nl);
        assert(join(e, nl) =~= Seq::<char>::empty());
        assert(join(groups_lines(q) + e, nl) =~= join(groups_lines(q), nl) + nl);
        assert(groups_lines(gs) == groups_lines(q) + e + gl);
        assert(join(groups_lines(gs), nl) =~= join(groups_lines(q), nl) + (nl + nl) + join(gl, nl));
    }
}

/// A section whose name reads back, and whose lines are no headings and no line breaks.
pub open spec fn group_ok(g: (Seq<char>, Seq<Seq<char>>)) -> bool {
    &&& g.0.len() > 0
    &&& is_trimmed(g.0)
    &&& lacks(g.0, '\n')
    &&& forall|i: int| 0 <= i < g.1.len() ==> section_name(#[trigger] g.1[i]) is None
    &&& forall|i: int| 0 <= i < g.1.len() ==> lacks(#[trigger] g.1[i], '\n')
}

pub open spec fn sec_step(prev: Seq<(Seq<char>, Seq<Seq<char>>)>, l: Seq<char>) -> Seq<
    (Seq<char>, Seq<Seq<char>>),
> {
    match section_name(l) {
        Some(n) => prev.push((n, Seq::empty())),
        None => if prev.len() == 0 {
            prev
        } else {
            prev.drop_last().push((prev.last().0, prev.last().1.push(l)))
        },
    }
}

pub open spec fn sec_steps(prev: Seq<(Seq<char>, Seq<Seq<char>>)>, ls: Seq<Seq<char>>) -> Seq<
    (Seq<char>, Seq<Seq<char>>),
>
    decreases ls.len(),
{
    if ls.len() == 0 {
        prev
    } else {
        sec_step(sec_steps(prev, ls.drop_last()), ls.last())
    }
}

proof fn lemma_sections_steps(ls: Seq<Seq<char>>)
    ensures
        sections_of(ls) == sec_steps(Seq::empty(), ls),
    decreases ls.len(),
{
    if ls.len() > 0 {
        lemma_sections_steps(ls.drop_last());
    }
}

proof fn lemma_sec_steps_concat(
    prev: Seq<(Seq<char>, Seq<Seq<char>>)>,
    a: Seq<Seq<char>>,
    b: Seq<Seq<char>>,
)
    ensures
        sec_steps(prev, a + b) == sec_steps(sec_steps(prev, a), b),
    decreases b.len(),
{
    if b.len() == 0 {
        assert(a + b =~= a);
    } else {
        lemma_sec_steps_concat(prev, a, b.drop_last());
        assert((a + b).drop_last() =~= a + b.drop_last());
        assert((a + b).last() == b.last());
    }
}

proof fn lemma_heading(n: Seq<char>)
    requires
        n.len() > 0,
        is_trimmed(n),
    ensures
        section_name("## "@ + n) == Some(n),
{
    reveal_strlit("## ");
    let l = "## "@ + n;
    assert(l.subrange(0, 3) =~= "## "@);
    assert(l.skip(3) =~= n);
    lemma_trim_trimmed(n);
}

proof fn lemma_group_content(
    prev: Seq<(Seq<char>, Seq<Seq<char>>)>,
    n: Seq<char>,
    c: Seq<Seq<char>>,
)
    requires
        forall|i: int| 0 <= i < c.len() ==> section_name(#[trigger] c[i]) is None,
    ensures
        sec_steps(prev.push((n, Seq::empty())), c) == prev.push((n, c)),
    decreases c.len(),
{
    if c.len() == 0 {
        assert(c =~= Seq::<Seq<char>>::empty());
    } else {
        let c0 = c.drop_last();
        assert forall|i: int| 0 <= i < c0.len() implies section_name(#[trigger] c0[i]) is None by {
            assert(c0[i] == c[i]);
        }
        lemma_group_content(prev, n, c0);
        assert(section_name(c[c.len() - 1]) is None);
        let st = prev.push((n, c0));
        assert(st.drop_last() =~= prev);
        assert(c0.push(c.last()) =~= c);
    }
}

proof fn lemma_group_steps(prev: Seq<(Seq<char>, Seq<Seq<char>>)>, g: (Seq<char>, Seq<Seq<char>>))
    requires
        group_ok(g),
    ensures
        sec_steps(prev, group_lines_of(g)) == prev.push(g),
{
    let h = seq!["## "@ + g.0];
    lemma_sec_steps_concat(prev, h, g.1);
    lemma_heading(g.0);
    assert(h.drop_last() =~= Seq::<Seq<char>>::empty());
    assert(sec_steps(prev, h.drop_last()) == prev);
    assert(sec_steps(prev, h) == prev.push((g.0, Seq::empty())));
    lemma_group_content(prev, g.0, g.1);
}

/// The sections as read: each with an empty line added where another section follows.
pub open spec fn read_groups(gs: Seq<(Seq<char>, Seq<Seq<char>>)>) -> Seq<
    (Seq<char>, Seq<Seq<char>>),
> {
    Seq::new(
        gs.len(),
        |k: int|
            (
                gs[k].0,
                if k < gs.len() - 1 {
                    gs[k].1.push(Seq::<char>::empty())
                } else {
                    gs[k].1
                },
            ),
    )
}

#[verifier::spinoff_prover]
#[verifier::rlimit(40)]
proof fn lemma_read_groups(gs: Seq<(Seq<char>, Seq<Seq<char>>)>)
    requires
        gs.len() >= 1,
        forall|k: int| 0 <= k < gs.len() ==> group_ok(#[trigger] gs[k]),
    ensures
        sec_steps(Seq::empty(), seq![Seq::<char>::empty()] + groups_lines(gs)) == read_groups(gs),
    decreases gs.len(),
{
    reveal_strlit("## ");
    let e = seq![Seq::<char>::empty()];
    let empty = Seq::<(Seq<char>, Seq<Seq<char>>)>::empty();
    assert(section_name(Seq::<char>::empty()) is None);
    assert(e.drop_last() =~= Seq::<Seq<char>>::empty());
    assert(sec_steps(empty, e.drop_last()) == empty);
    assert(e.last() == Seq::<char>::empty());
    assert(sec_step(empty, Seq::<char>::empty()) == empty);
    assert(sec_steps(empty, e) == empty);
    assert(group_ok(gs[gs.len() - 1]));
    if gs.len() == 1 {
        lemma_sec_steps_concat(empty, e, groups_lines(gs));
        lemma_group_steps(empty, gs[0]);
        assert(read_groups(gs) =~= seq![gs[0]]);
        assert(empty.push(gs[0]) =~= seq![gs[0]]);
    } else {
        let q = gs.drop_last();
        assert forall|k: int| 0 <= k < q.len() implies group_ok(#[trigger] q[k]) by {
            assert(q[k] == gs[k]);
        }
        lemma_read_groups(q);
        let gl = group_lines_of(gs.last());
        assert(e + groups_lines(gs) =~= (e + groups_lines(q)) + e + gl);
        lemma_sec_steps_concat(empty, (e + groups_lines(q)) + e, gl);
        lemma_sec_steps_concat(empty, e + groups_lines(q), e);
        let rq = read_groups(q);
        assert(rq.len() == q.len());
        assert(sec_steps(rq, e.drop_last()) == rq);
        let r1 = sec_steps(rq, e);
        assert(r1 == rq.drop_last().push((rq.last().0, rq.last().1.push(Seq::<char>::empty()))));
        lemma_group_steps(r1, gs.last());
        assert(r1.push(gs.last()) =~= read_groups(gs));
    }
}

/// Whether a blank line at the end of the section's lines changes nothing that it gives.
pub open spec fn blank_insensitive(g: (Seq<char>, Seq<Seq<char>>)) -> bool {
    forall|b: BodyView|
        #[trigger] apply_section(b, g.0, g.1.push(Seq::<char>::empty())) == apply_section(b, g.0, g.1)
}

proof fn lemma_apply_read_groups(b: BodyView, gs: Seq<(Seq<char>, Seq<Seq<char>>)>, xs: Seq<(Seq<char>, Seq<Seq<char>>)>)
    requires
        xs.len() == gs.len(),
        forall|k: int| 0 <= k < gs.len() ==> blank_insensitive(#[trigger] gs[k]),
        forall|k: int|
            0 <= k < gs.len() ==> (#[trigger] xs[k]).0 == gs[k].0 && (xs[k].1 == gs[k].1 || xs[k].1
                == gs[k].1.push(Seq::<char>::empty())),
    ensures
        apply_sections(b, xs) == apply_sections(b, gs),
    decreases gs.len(),
{
    if gs.len() > 0 {
        let q = gs.drop_last();
        let xq = xs.drop_last();
        assert forall|k: int| 0 <= k < q.len() implies blank_insensitive(#[trigger] q[k]) by {
            assert(q[k] == gs[k]);
        }
        assert forall|k: int| 0 <= k < q.len() implies (#[trigger] xq[k]).0 == q[k].0 && (xq[k].1
            == q[k].1 || xq[k].1 == q[k].1.push(Seq::<char>::empty())) by {
            assert(xq[k] == xs[k]);
            assert(q[k] == gs[k]);
        }
        lemma_apply_read_groups(b, q, xq);
        let k = gs.len() - 1;
        assert(xs.last() == xs[k]);
        assert(gs.last() == gs[k]);
        assert(blank_insensitive(gs[k]));
        match apply_sections(b, q) {
            None => {},
            Some(c) => {
                assert(apply_section(c, gs[k].0, gs[k].1.push(Seq::<char>::empty())) == apply_section(
                    c,
                    gs[k].0,
                    gs[k].1,
                ));
            },
        }
    }
}

proof fn lemma_apply_concat(b: BodyView, a: Seq<(Seq<char>, Seq<Seq<char>>)>, c: Seq<(Seq<char>, Seq<Seq<char>>)>)
    ensures
        apply_sections(b, a + c) == match apply_sections(b, a) {
            Some(m) => apply_sections(m, c),
            None => None,
        },
    decreases c.len(),
{
    if c.len() == 0 {
        assert(a + c =~= a);
    } else {
        lemma_apply_concat(b, a, c.drop_last());
        assert((a + c).drop_last() =~= a + c.drop_last());
        assert((a + c).last() == c.last());
    }
}

// ── The body of a project ────────────────────────────────────────────

/// The sections a project writes, each with its name and lines.
pub open spec fn project_groups(p: ProjectView) -> Seq<(Seq<char>, Seq<Seq<char>>)> {
    (if p.current_focus.len() > 0 {
        seq![("Current Focus"@, seq![p.current_focus])]
    } else {
        Seq::empty()
    }) + (if p.blockers.len() > 0 {
        seq![("Blockers"@, blocker_lines(p.blockers))]
    } else {
        Seq::empty()
    }) + (if p.decisions.len() > 0 {
        seq![("Decisions"@, decisions_lines(p.decisions))]
    } else {
        Seq::empty()
    }) + (if p.log.len() > 0 {
        seq![("Log"@, log_lines(p.log))]
    } else {
        Seq::empty()
    })
}

/// A project whose body its markdown describes: a one-line focus that is no heading, and
/// blockers, decisions and log days that read back.
pub open spec fn body_ok(p: ProjectView) -> bool {
    &&& lacks(p.current_focus, '\n')
    &&& !has_prefix_at(p.current_focus, 0, "## "@)
    &&& blockers_ok(p.blockers)
    &&& decisions_ok(p.decisions)
    &&& log_ok(p.log)
}

pub open spec fn body_view(p: ProjectView) -> BodyView {
    BodyView {
        focus: trim(p.current_focus),
        blockers: p.blockers,
        decisions: p.decisions,
        log: p.log,
    }
}

proof fn lemma_groups_texts_concat(a: Seq<(Seq<char>, Seq<Seq<char>>)>, b: Seq<(Seq<char>, Seq<Seq<char>>)>)
    ensures
        groups_texts(a + b) == groups_texts(a) + groups_texts(b),
{
    assert(groups_texts(a + b) =~= groups_texts(a) + groups_texts(b));
}

#[verifier::spinoff_prover]
#[verifier::rlimit(40)]
proof fn lemma_project_groups_text(p: ProjectView)
    ensures
        body_sections(p) == groups_texts(project_groups(p)),
{
    reveal_strlit("## Current Focus\n");
    reveal_strlit("## Blockers");
    reveal_strlit("## Decisions");
    reveal_strlit("## Log");
    reveal_strlit("## ");
    reveal_strlit("Current Focus");
    reveal_strlit("Blockers");
    reveal_strlit("Decisions");
    reveal_strlit("Log");
    reveal_strlit("\n");
    let fg = if p.current_focus.len() > 0 {
        seq![("Current Focus"@, seq![p.current_focus])]
    } else {
        Seq::empty()
    };
    let bg = if p.blockers.len() > 0 {
        seq![("Blockers"@, blocker_lines(p.blockers))]
    } else {
        Seq::empty()
    };
    let dg = if p.decisions.len() > 0 {
        seq![("Decisions"@, decisions_lines(p.decisions))]
    } else {
        Seq::empty()
    };
    let lg = if p.log.len() > 0 {
        seq![("Log"@, log_lines(p.log))]
    } else {
        Seq::empty()
    };
    let ft = if p.current_focus.len() > 0 {
        seq!["## Current Focus\n"@ + p.current_focus]
    } else {
        Seq::<Seq<char>>::empty()
    };
    let bt = if p.blockers.len() > 0 {
        seq![join(seq!["## Blockers"@] + blocker_lines(p.blockers), "\n"@)]
    } else {
        Seq::<Seq<char>>::empty()
    };
    let dt = if p.decisions.len() > 0 {
        seq![join(seq!["## Decisions"@] + decisions_lines(p.decisions), "\n"@)]
    } else {
        Seq::<Seq<char>>::empty()
    };
    let lt = if p.log.len() > 0 {
        seq![join(seq!["## Log"@] + log_lines(p.log), "\n"@)]
    } else {
        Seq::<Seq<char>>::empty()
    };
    assert(project_groups(p) == fg + bg + dg + lg);
    assert(body_sections(p) == ft + bt + dt + lt);
    lemma_groups_texts_concat(fg + bg + dg, lg);
    lemma_groups_texts_concat(fg + bg, dg);
    lemma_groups_texts_concat(fg, bg);
    if p.current_focus.len() > 0 {
        let f = seq!["## "@ + "Current Focus"@, p.current_focus];
        assert(group_lines_of(fg[0]) =~= f);
        assert(f.drop_last() =~= seq!["## "@ + "Current Focus"@]);
        assert(join(f, "\n"@) == join(f.drop_last(), "\n"@) + "\n"@ + p.current_focus);
        assert(join(f, "\n"@) =~= "## Current Focus\n"@ + p.current_focus);
        assert(groups_texts(fg) =~= ft);
    } else {
        assert(groups_texts(fg) =~= ft);
    }
    assert("## Blockers"@ =~= "## "@ + "Blockers"@);
    assert("## Decisions"@ =~= "## "@ + "Decisions"@);
    assert("## Log"@ =~= "## "@ + "Log"@);
    if p.blockers.len() > 0 {
        assert(group_lines_of(bg[0]) =~= seq!["## Blockers"@] + blocker_lines(p.blockers));
    }
    assert(groups_texts(bg) =~= bt);
    if p.decisions.len() > 0 {
        assert(group_lines_of(dg[0]) =~= seq!["## Decisions"@] + decisions_lines(p.decisions));
    }
    assert(groups_texts(dg) =~= dt);
    if p.log.len() > 0 {
        assert(group_lines_of(lg[0]) =~= seq!["## Log"@] + log_lines(p.log));
    }
    assert(groups_texts(lg) =~= lt);
}

proof fn lemma_line_not_heading(l: Seq<char>)
    requires
        l.len() > 0,
        l[0] != '#',
    ensures
        section_name(l) is None,
{
    reveal_strlit("## ");
    if l.len() >= 3 {
        assert(l.subrange(0, 3)[0] == l[0]);
    }
}

proof fn lemma_project_groups_ok(p: ProjectView)
    requires
        body_ok(p),
        ascii_digits_match(),
    ensures
        forall|k: int| 0 <= k < project_groups(p).len() ==> group_ok(#[trigger] project_groups(p)[k]),
{
    reveal_strlit("Current Focus");
    reveal_strlit("Blockers");
    reveal_strlit("Decisions");
    reveal_strlit("Log");
    reveal_strlit("## ");
    let gs = project_groups(p);
    if p.current_focus.len() > 0 {
        let c = seq![p.current_focus];
        assert forall|i: int| 0 <= i < c.len() implies section_name(#[trigger] c[i]) is None by {
            assert(c[i] == p.current_focus);
        }
    }
    lemma_blocker_lines_ok(p.blockers);
    lemma_decisions_lines_ok(p.decisions);
    lemma_log_lines_ok(p.log);
    assert forall|k: int| 0 <= k < gs.len() implies group_ok(#[trigger] gs[k]) by {
        let g = gs[k];
        assert(g.0 == "Current Focus"@ || g.0 == "Blockers"@ || g.0 == "Decisions"@ || g.0 == "Log"@);
        assert(g.0.len() > 0);
        assert(g.0[0] != ' ' && g.0.last() != ' ');
        assert(lacks(g.0, '\n'));
    }
}

proof fn lemma_blocker_lines_ok(bs: Seq<BlockerView>)
    requires
        blockers_ok(bs),
        ascii_digits_match(),
    ensures
        forall|i: int| 0 <= i < blocker_lines(bs).len() ==> section_name(#[trigger] blocker_lines(bs)[i]) is None,
        forall|i: int| 0 <= i < blocker_lines(bs).len() ==> lacks(#[trigger] blocker_lines(bs)[i], '\n'),
{
    reveal_strlit("- [");
    let ls = blocker_lines(bs);
    assert forall|i: int| 0 <= i < ls.len() implies section_name(#[trigger] ls[i]) is None && lacks(ls[i], '\n') by {
        assert(blocker_ok(bs[i]));
        lemma_blocker_line(bs[i]);
        assert(ls[i] == blocker_line(bs[i]));
        assert(ls[i][0] == '-');
        lemma_line_not_heading(ls[i]);
    }
}

#[verifier::spinoff_prover]
#[verifier::rlimit(40)]
proof fn lemma_decisions_lines_ok(ds: Seq<DecisionView>)
    requires
        decisions_ok(ds),
        ascii_digits_match(),
    ensures
        forall|i: int| 0 <= i < decisions_lines(ds).len() ==> section_name(#[trigger] decisions_lines(ds)[i]) is None,
        forall|i: int| 0 <= i < decisions_lines(ds).len() ==> lacks(#[trigger] decisions_lines(ds)[i], '\n'),
    decreases ds.len(),
{
    reveal_strlit("- **");
    reveal_strlit("  - Alternatives: ");
    if ds.len() > 0 {
        let q = ds.drop_last();
        assert forall|i: int| 0 <= i < q.len() implies decision_ok(#[trigger] q[i]) by {
            assert(q[i] == ds[i]);
        }
        lemma_decisions_lines_ok(q);
        let d = ds.last();
        assert(decision_ok(ds[ds.len() - 1]));
        lemma_decision_head(d);
        let dl = decision_lines(d);
        let head = "- **"@ + date_text(d.date) + ":** "@ + d.choice;
        assert(dl[0] == head);
        assert(head[0] == '-');
        lemma_line_not_heading(head);
        if d.alternatives.len() > 0 {
            lemma_alt_line(d.alternatives);
            let al = "  - Alternatives: "@ + join(d.alternatives, ", "@);
            assert(dl[1] == al);
            assert(al[0] == ' ');
            lemma_line_not_heading(al);
        }
        let all = decisions_lines(ds);
        assert(all == decisions_lines(q) + dl);
        assert forall|i: int| 0 <= i < all.len() implies section_name(#[trigger] all[i]) is None && lacks(all[i], '\n') by {
            if i < decisions_lines(q).len() {
                assert(all[i] == decisions_lines(q)[i]);
            } else {
                assert(all[i] == dl[i - decisions_lines(q).len()]);
            }
        }
    }
}

#[verifier::spinoff_prover]
#[verifier::rlimit(40)]
proof fn lemma_log_lines_ok(es: Seq<LogEntryView>)
    requires
        log_ok(es),
        ascii_digits_match(),
    ensures
        forall|i: int| 0 <= i < log_lines(es).len() ==> section_name(#[trigger] log_lines(es)[i]) is None,
        forall|i: int| 0 <= i < log_lines(es).len() ==> lacks(#[trigger] log_lines(es)[i], '\n'),
    decreases es.len(),
{
    reveal_strlit("### ");
    reveal_strlit("- ");
    reveal_strlit("## ");
    if es.len() > 0 {
        let q = es.drop_last();
        assert forall|i: int| 0 <= i < q.len() implies entry_ok(#[trigger] q[i]) by {
            assert(q[i] == es[i]);
        }
        lemma_log_lines_ok(q);
        let e = es.last();
        assert(entry_ok(es[es.len() - 1]));
        let el = entry_lines(e);
        assert(el =~= seq!["### "@ + date_text(e.date)] + item_lines(e.lines));
        let t = date_text(e.date);
        lemma_date_shape(e.date);
        assert forall|i: int| 0 <= i < el.len() implies section_name(#[trigger] el[i]) is None && lacks(el[i], '\n') by {
            if i == 0 {
                let h = "### "@ + t;
                assert(el[0] == h);
                assert(h.subrange(0, 3)[2] == '#');
                assert(h.len() >= 3);
                assert(!has_prefix_at(h, 0, "## "@));
                assert forall|k: int| 0 <= k < h.len() implies #[trigger] h[k] != '\n' by {
                    if k >= 4 {
                        assert(h[k] == t[k - 4]);
                        if k - 4 != 4 && k - 4 != 7 {
                            assert(is_digit(t[k - 4]));
                        }
                    }
                }
            } else {
                let x = e.lines[i - 1];
                assert(log_line_ok(x));
                let l = "- "@ + x;
                assert(el[i] == l);
                assert(l[0] == '-');
                lemma_line_not_heading(l);
                assert forall|k: int| 0 <= k < l.len() implies #[trigger] l[k] != '\n' by {
                    if k >= 2 {
                        assert(l[k] == x[k - 2]);
                    }
                }
            }
        }
        let all = log_lines(es);
        assert(all == log_lines(q) + el);
        assert forall|i: int| 0 <= i < all.len() implies section_name(#[trigger] all[i]) is None && lacks(all[i], '\n') by {
            if i < log_lines(q).len() {
                assert(all[i] == log_lines(q)[i]);
            } else {
                assert(all[i] == el[i - log_lines(q).len()]);
            }
        }
    }
}

proof fn lemma_apply_one(b: BodyView, g: (Seq<char>, Seq<Seq<char>>))
    ensures
        apply_sections(b, seq![g]) == apply_section(b, g.0, g.1),
{
    let one = seq![g];
    assert(one.drop_last() =~= Seq::<(Seq<char>, Seq<Seq<char>>)>::empty());
    assert(apply_sections(b, one.drop_last()) == Some(b));
    assert(one.last() == g);
    assert(one.len() == 1);
}

proof fn lemma_names_differ()
    ensures
        "Blockers"@ != "Current Focus"@,
        "Decisions"@ != "Current Focus"@,
        "Decisions"@ != "Blockers"@,
        "Log"@ != "Current Focus"@,
        "Log"@ != "Blockers"@,
        "Log"@ != "Decisions"@,
{
    reveal_strlit("Current Focus");
    reveal_strlit("Blockers");
    reveal_strlit("Decisions");
    reveal_strlit("Log");
    assert("Blockers"@.len() != "Current Focus"@.len());
    assert("Decisions"@.len() != "Current Focus"@.len());
    assert("Decisions"@[0] != "Blockers"@[0]);
    assert("Log"@.len() != "Current Focus"@.len());
    assert("Log"@.len() != "Blockers"@.len());
    assert("Log"@.len() != "Decisions"@.len());
}

proof fn lemma_trim_start_append(x: Seq<char>, c: char)
    requires
        is_ws(c),
    ensures
        trim_start(x + seq![c]) == if trim_start(x).len() > 0 {
            trim_start(x) + seq![c]
        } else {
            Seq::<char>::empty()
        },
    decreases x.len(),
{
    let xc = x + seq![c];
    if x.len() == 0 {
        assert(xc =~= seq![c]);
        assert(xc.drop_first() =~= Seq::<char>::empty());
        assert(trim_start(Seq::<char>::empty()) == Seq::<char>::empty());
        assert(trim_start(xc) == trim_start(xc.drop_first()));
        assert(trim_start(x) == x);
    } else if is_ws(x[0]) {
        assert(xc[0] == x[0]);
        assert(xc.drop_first() =~= x.drop_first() + seq![c]);
        lemma_trim_start_append(x.drop_first(), c);
        assert(trim_start(xc) == trim_start(xc.drop_first()));
        assert(trim_start(x) == trim_start(x.drop_first()));
    } else {
        assert(xc[0] == x[0]);
        assert(trim_start(xc) == xc);
        assert(trim_start(x) == x);
    }
}

/// White space added at the end changes nothing that `trim` gives.
pub(crate) proof fn lemma_trim_ws_append(x: Seq<char>, c: char)
    requires
        is_ws(c),
    ensures
        trim(x + seq![c]) == trim(x),
{
    lemma_trim_start_append(x, c);
    let ts = trim_start(x);
    if ts.len() > 0 {
        assert((ts + seq![c]).drop_last() =~= ts);
        assert((ts + seq![c]).last() == c);
    } else {
        assert(ts =~= Seq::<char>::empty());
    }
}

proof fn lemma_trim_ws_suffix(x: Seq<char>, w: Seq<char>)
    requires
        forall|i: int| 0 <= i < w.len() ==> is_ws(#[trigger] w[i]),
    ensures
        trim(x + w) == trim(x),
    decreases w.len(),
{
    if w.len() > 0 {
        let w0 = w.drop_last();
        assert forall|i: int| 0 <= i < w0.len() implies is_ws(#[trigger] w0[i]) by {
            assert(w0[i] == w[i]);
        }
        lemma_trim_ws_suffix(x, w0);
        assert(x + w =~= (x + w0) + seq![w.last()]);
        assert(is_ws(w[w.len() - 1]));
        lemma_trim_ws_append(x + w0, w.last());
    } else {
        assert(x + w =~= x);
    }
}

proof fn lemma_trim_end_split(x: Seq<char>)
    ensures
        x == trim_end(x) + x.skip(trim_end(x).len() as int),
        forall|i: int| 0 <= i < x.skip(trim_end(x).len() as int).len() ==> is_ws(
            #[trigger] x.skip(trim_end(x).len() as int)[i],
        ),
    decreases x.len(),
{
    lemma_trim_end_bounds(x);
    if x.len() > 0 && is_ws(x.last()) {
        lemma_trim_end_split(x.drop_last());
        let n = trim_end(x).len() as int;
        assert(trim_end(x) == trim_end(x.drop_last()));
        let w0 = x.drop_last().skip(n);
        let w = x.skip(n);
        assert(w =~= w0 + seq![x.last()]);
        assert forall|i: int| 0 <= i < w.len() implies is_ws(#[trigger] w[i]) by {
            if i < w0.len() {
                assert(w[i] == w0[i]);
            }
        }
    }
    assert(x =~= trim_end(x) + x.skip(trim_end(x).len() as int));
}

/// `trim` of the text without its trailing white space is `trim` of the text.
pub(crate) proof fn lemma_trim_of_trim_end(x: Seq<char>)
    ensures
        trim(trim_end(x)) == trim(x),
{
    lemma_trim_end_split(x);
    lemma_trim_ws_suffix(trim_end(x), x.skip(trim_end(x).len() as int));
}

proof fn lemma_focus_group(focus: Seq<char>)
    requires
        focus.len() > 0,
    ensures
        blank_insensitive(("Current Focus"@, seq![focus])),
        forall|b: BodyView|
            #[trigger] apply_section(b, "Current Focus"@, seq![focus]) == Some(
                BodyView { focus: trim(focus), ..b },
            ),
{
    reveal_strlit("\n");
    let c = seq![focus];
    let c2 = c.push(Seq::<char>::empty());
    assert(join(c, "\n"@) == focus);
    assert(c2.drop_last() =~= c);
    assert(join(c2, "\n"@) == join(c, "\n"@) + "\n"@ + Seq::<char>::empty());
    assert(join(c2, "\n"@) =~= focus + seq!['\n']);
    lemma_trim_ws_append(focus, '\n');
}

proof fn lemma_blockers_group(bs: Seq<BlockerView>)
    requires
        blockers_ok(bs),
        ascii_digits_match(),
    ensures
        blank_insensitive(("Blockers"@, blocker_lines(bs))),
        forall|b: BodyView|
            #[trigger] apply_section(b, "Blockers"@, blocker_lines(bs)) == Some(
                BodyView { blockers: b.blockers + bs, ..b },
            ),
{
    lemma_names_differ();
    lemma_blockers_round_trip(bs, true);
    lemma_blockers_round_trip(bs, false);
    assert(blocker_lines(bs) + Seq::<Seq<char>>::empty() =~= blocker_lines(bs));
    assert(blocker_lines(bs) + seq![Seq::<char>::empty()] =~= blocker_lines(bs).push(Seq::<char>::empty()));
}

proof fn lemma_decisions_group(ds: Seq<DecisionView>)
    requires
        decisions_ok(ds),
        ascii_digits_match(),
    ensures
        blank_insensitive(("Decisions"@, decisions_lines(ds))),
        forall|b: BodyView|
            #[trigger] apply_section(b, "Decisions"@, decisions_lines(ds)) == Some(
                BodyView { decisions: b.decisions + ds, ..b },
            ),
{
    lemma_names_differ();
    lemma_decisions_round_trip(ds, true);
    lemma_decisions_round_trip(ds, false);
    assert(decisions_lines(ds) + Seq::<Seq<char>>::empty() =~= decisions_lines(ds));
    assert(decisions_lines(ds) + seq![Seq::<char>::empty()] =~= decisions_lines(ds).push(Seq::<char>::empty()));
}

proof fn lemma_log_group(es: Seq<LogEntryView>)
    requires
        es.len() > 0,
        log_ok(es),
        ascii_digits_match(),
    ensures
        blank_insensitive(("Log"@, log_lines(es))),
        forall|b: BodyView|
            #[trigger] apply_section(b, "Log"@, log_lines(es)) == Some(
                BodyView { log: b.log + es, ..b },
            ),
{
    lemma_names_differ();
    lemma_log_round_trip(es, true);
    lemma_log_round_trip(es, false);
    assert(log_lines(es) + Seq::<Seq<char>>::empty() =~= log_lines(es));
    assert(log_lines(es) + seq![Seq::<char>::empty()] =~= log_lines(es).push(Seq::<char>::empty()));
}

#[verifier::spinoff_prover]
#[verifier::rlimit(40)]
proof fn lemma_apply_groups(p: ProjectView)
    requires
        body_ok(p),
        ascii_digits_match(),
    ensures
        apply_sections(empty_body(), project_groups(p)) == Some(body_view(p)),
        forall|k: int| 0 <= k < project_groups(p).len() ==> blank_insensitive(#[trigger] project_groups(p)[k]),
{
    let fg = if p.current_focus.len() > 0 {
        seq![("Current Focus"@, seq![p.current_focus])]
    } else {
        Seq::empty()
    };
    let bg = if p.blockers.len() > 0 {
        seq![("Blockers"@, blocker_lines(p.blockers))]
    } else {
        Seq::empty()
    };
    let dg = if p.decisions.len() > 0 {
        seq![("Decisions"@, decisions_lines(p.decisions))]
    } else {
        Seq::empty()
    };
    let lg = if p.log.len() > 0 {
        seq![("Log"@, log_lines(p.log))]
    } else {
        Seq::empty()
    };
    let gs = project_groups(p);
    assert(gs == fg + bg + dg + lg);
    lemma_apply_concat(empty_body(), fg + bg + dg, lg);
    lemma_apply_concat(empty_body(), fg + bg, dg);
    lemma_apply_concat(empty_body(), fg, bg);
    let e = empty_body();
    let b1 = BodyView { focus: trim(p.current_focus), ..e };
    if p.current_focus.len() > 0 {
        lemma_focus_group(p.current_focus);
        lemma_apply_one(e, fg[0]);
    } else {
        assert(p.current_focus =~= Seq::<char>::empty());
        assert(trim(p.current_focus) =~= Seq::<char>::empty());
    }
    assert(apply_sections(e, fg) == Some(b1));
    let b2 = BodyView { blockers: p.blockers, ..b1 };
    if p.blockers.len() > 0 {
        lemma_blockers_group(p.blockers);
        lemma_apply_one(b1, bg[0]);
        assert(b1.blockers + p.blockers =~= p.blockers);
    } else {
        assert(p.blockers =~= Seq::<BlockerView>::empty());
    }
    assert(apply_sections(b1, bg) == Some(b2));
    let b3 = BodyView { decisions: p.decisions, ..b2 };
    if p.decisions.len() > 0 {
        lemma_decisions_group(p.decisions);
        lemma_apply_one(b2, dg[0]);
        assert(b2.decisions + p.decisions =~= p.decisions);
    } else {
        assert(p.decisions =~= Seq::<DecisionView>::empty());
    }
    assert(apply_sections(b2, dg) == Some(b3));
    let b4 = BodyView { log: p.log, ..b3 };
    if p.log.len() > 0 {
        lemma_log_group(p.log);
        lemma_apply_one(b3, lg[0]);
        assert(b3.log + p.log =~= p.log);
    } else {
        assert(p.log =~= Seq::<LogEntryView>::empty());
    }
    assert(apply_sections(b3, lg) == Some(b4));
    assert(b4 == body_view(p));
    assert forall|k: int| 0 <= k < gs.len() implies blank_insensitive(#[trigger] gs[k]) by {
        let g = gs[k];
        if g == ("Current Focus"@, seq![p.current_focus]) {
            lemma_focus_group(p.current_focus);
        }
        if p.blockers.len() > 0 {
            lemma_blockers_group(p.blockers);
        }
        if p.decisions.len() > 0 {
            lemma_decisions_group(p.decisions);
        }
        if p.log.len() > 0 {
            lemma_log_group(p.log);
        }
        if p.current_focus.len() > 0 {
            lemma_focus_group(p.current_focus);
        }
    }
}

proof fn lemma_groups_lines_lack(gs: Seq<(Seq<char>, Seq<Seq<char>>)>)
    requires
        forall|k: int| 0 <= k < gs.len() ==> group_ok(#[trigger] gs[k]),
    ensures
        forall|i: int| 0 <= i < groups_lines(gs).len() ==> lacks(#[trigger] groups_lines(gs)[i], '\n'),
    decreases gs.len(),
{
    reveal_strlit("## ");
    if gs.len() > 0 {
        let g = gs.last();
        assert(group_ok(gs[gs.len() - 1]));
        crate::issue::lemma_lacks_concat("## "@, g.0, '\n');
        let gl = group_lines_of(g);
        assert forall|i: int| 0 <= i < gl.len() implies lacks(#[trigger] gl[i], '\n') by {
            if i > 0 {
                assert(gl[i] == g.1[i - 1]);
            }
        }
        if gs.len() == 1 {
            assert(gs[0] == g);
        } else {
            let q = gs.drop_last();
            assert forall|k: int| 0 <= k < q.len() implies group_ok(#[trigger] q[k]) by {
                assert(q[k] == gs[k]);
            }
            lemma_groups_lines_lack(q);
            let all = groups_lines(gs);
            let n = groups_lines(q).len();
            assert forall|i: int| 0 <= i < all.len() implies lacks(#[trigger] all[i], '\n') by {
                if i < n {
                    assert(all[i] == groups_lines(q)[i]);
                } else if i == n {
                    assert(all[i] == Seq::<char>::empty());
                } else {
                    assert(all[i] == gl[i - n - 1]);
                }
            }
        }
    }
}

/// What follows the frontmatter of a project's markdown, after the first line break.
pub open spec fn body_text(p: ProjectView) -> Seq<char> {
    if body_sections(p).len() > 0 {
        "\n"@ + join(body_sections(p), "\n\n"@)
    } else {
        Seq::empty()
    }
}

/// The body that a well-formed project writes reads back as its focus, blockers, decisions
/// and log.
#[verifier::spinoff_prover]
#[verifier::rlimit(40)]
pub(crate) proof fn lemma_body_round_trip(p: ProjectView)
    requires
        body_ok(p),
        ascii_digits_match(),
    ensures
        project_body(body_text(p)) == Some(body_view(p)),
{
    reveal_strlit("\n");
    let gs = project_groups(p);
    lemma_project_groups_text(p);
    lemma_apply_groups(p);
    let empty_secs = Seq::<(Seq<char>, Seq<Seq<char>>)>::empty();
    if body_sections(p).len() == 0 {
        assert(gs.len() == 0);
        assert(body_text(p) =~= Seq::<char>::empty());
        let ls = split_on(Seq::<char>::empty(), '\n');
        assert(ls =~= seq![Seq::<char>::empty()]);
        lemma_sections_steps(ls);
        assert(ls.drop_last() =~= Seq::<Seq<char>>::empty());
        assert(sec_steps(empty_secs, ls.drop_last()) == empty_secs);
        reveal_strlit("## ");
        assert(section_name(Seq::<char>::empty()) is None);
        assert(sections_of(ls) == empty_secs);
        assert(apply_sections(empty_body(), gs) == Some(empty_body()));
    } else {
        let nl = seq!['\n'];
        assert("\n"@ =~= nl);
        lemma_groups_text(gs);
        lemma_groups_lines_len(gs);
        let gl = groups_lines(gs);
        let e = seq![Seq::<char>::empty()];
        lemma_join_concat(e, gl, nl);
        assert(join(e, nl) =~= Seq::<char>::empty());
        assert(body_text(p) =~= join(e + gl, nl));
        lemma_project_groups_ok(p);
        lemma_groups_lines_lack(gs);
        assert forall|i: int| 0 <= i < (e + gl).len() implies lacks(#[trigger] (e + gl)[i], '\n') by {
            if i > 0 {
                assert((e + gl)[i] == gl[i - 1]);
            }
        }
        lemma_split_join(e + gl);
        lemma_sections_steps(e + gl);
        lemma_read_groups(gs);
        let xs = read_groups(gs);
        lemma_apply_read_groups(empty_body(), gs, xs);
    }
}

// ── The frontmatter ──────────────────────────────────────────────────

proof fn lemma_double_quotes_lacks(s: Seq<char>)
    requires
        lacks(s, '\n'),
    ensures
        lacks(double_quotes(s), '\n'),
    decreases s.len(),
{
    if s.len() > 0 {
        let q = s.drop_last();
        assert(lacks(q, '\n')) by {
            assert forall|i: int| 0 <= i < q.len() implies #[trigger] q[i] != '\n' by {
                assert(q[i] == s[i]);
            }
        }
        lemma_double_quotes_lacks(q);
        assert(s.last() == s[s.len() - 1]);
        if s.last() == '\'' {
            crate::issue::lemma_lacks_concat(double_quotes(q), seq!['\'', '\''], '\n');
        } else {
            crate::issue::lemma_lacks_concat(double_quotes(q), seq![s.last()], '\n');
            assert(double_quotes(q).push(s.last()) =~= double_quotes(q) + seq![s.last()]);
        }
    }
}

proof fn lemma_yaml_scalar_lacks(s: Seq<char>)
    requires
        lacks(s, '\n'),
    ensures
        lacks(yaml_scalar(s), '\n'),
{
    lemma_double_quotes_lacks(s);
    crate::issue::lemma_lacks_concat(seq!['\''], s, '\n');
    crate::issue::lemma_lacks_concat(seq!['\''] + s, seq!['\''], '\n');
    crate::issue::lemma_lacks_concat(seq!['\''], double_quotes(s), '\n');
    crate::issue::lemma_lacks_concat(seq!['\''] + double_quotes(s), seq!['\''], '\n');
}

/// The frontmatter's lines between the two `---` lines.
pub open spec fn frontmatter_lines(p: ProjectView) -> Seq<Seq<char>> {
    seq![
        "created: '"@ + date_text(p.created) + "'"@,
        "name: "@ + yaml_scalar(p.name),
        "priority: "@ + priority_name(p.priority),
        "status: "@ + status_name(p.status),
    ] + (if p.tags.len() == 0 {
        seq!["tags: []"@]
    } else {
        seq!["tags:"@] + Seq::new(p.tags.len(), |i: int| "- "@ + yaml_scalar(p.tags[i]))
    }) + (match p.target {
        Some(t) => seq!["target: '"@ + date_text(t) + "'"@],
        None => Seq::empty(),
    }) + (match p.active_issue {
        Some(n) => seq!["active_issue: "@ + dec(n as nat)],
        None => Seq::empty(),
    })
}

/// The YAML text that a project's frontmatter hands to the YAML parser.
pub open spec fn project_yaml(p: ProjectView) -> Seq<char> {
    terminated(frontmatter_lines(p)).drop_last()
}

proof fn lemma_terminated_one(l: Seq<char>)
    ensures
        terminated(seq![l]) == l + seq!['\n'],
{
    let one = seq![l];
    assert(one.drop_last() =~= Seq::<Seq<char>>::empty());
    assert(terminated(one.drop_last()) =~= Seq::<char>::empty());
    assert(one.last() == l);
    assert(terminated(one) =~= l + seq!['\n']);
}

proof fn lemma_tag_lines(tags: Seq<Seq<char>>)
    ensures
        tag_lines(tags) == terminated(Seq::new(tags.len(), |i: int| "- "@ + yaml_scalar(tags[i]))),
    decreases tags.len(),
{
    reveal_strlit("\n");
    let ls = Seq::new(tags.len(), |i: int| "- "@ + yaml_scalar(tags[i]));
    if tags.len() == 0 {
        assert(ls =~= Seq::<Seq<char>>::empty());
    } else {
        let q = tags.drop_last();
        lemma_tag_lines(q);
        let lq = Seq::new(q.len(), |i: int| "- "@ + yaml_scalar(q[i]));
        assert(ls.drop_last() =~= lq);
        assert(ls.last() == "- "@ + yaml_scalar(tags.last()));
        assert(tag_lines(tags) =~= terminated(ls));
    }
}

pub open spec fn fm_head_lines(p: ProjectView) -> Seq<Seq<char>> {
    seq![
        "created: '"@ + date_text(p.created) + "'"@,
        "name: "@ + yaml_scalar(p.name),
        "priority: "@ + priority_name(p.priority),
        "status: "@ + status_name(p.status),
    ]
}

pub open spec fn fm_tag_lines(p: ProjectView) -> Seq<Seq<char>> {
    if p.tags.len() == 0 {
        seq!["tags: []"@]
    } else {
        seq!["tags:"@] + Seq::new(p.tags.len(), |i: int| "- "@ + yaml_scalar(p.tags[i]))
    }
}

pub open spec fn fm_tail_lines(p: ProjectView) -> Seq<Seq<char>> {
    (match p.target {
        Some(t) => seq!["target: '"@ + date_text(t) + "'"@],
        None => Seq::<Seq<char>>::empty(),
    }) + (match p.active_issue {
        Some(n) => seq!["active_issue: "@ + dec(n as nat)],
        None => Seq::<Seq<char>>::empty(),
    })
}

#[verifier::spinoff_prover]
proof fn lemma_fm_head(p: ProjectView)
    ensures
        frontmatter_head(p) == "---\n"@ + terminated(fm_head_lines(p)),
{
    reveal_strlit("---\ncreated: '");
    reveal_strlit("'\nname: ");
    reveal_strlit("\npriority: ");
    reveal_strlit("\nstatus: ");
    reveal_strlit("\n");
    reveal_strlit("---\n");
    reveal_strlit("created: '");
    reveal_strlit("'");
    reveal_strlit("name: ");
    reveal_strlit("priority: ");
    reveal_strlit("status: ");
    let l0 = "created: '"@ + date_text(p.created) + "'"@;
    let l1 = "name: "@ + yaml_scalar(p.name);
    let l2 = "priority: "@ + priority_name(p.priority);
    let l3 = "status: "@ + status_name(p.status);
    let head = fm_head_lines(p);
    assert(head =~= seq![l0] + seq![l1] + seq![l2] + seq![l3]);
    lemma_terminated_concat(seq![l0] + seq![l1] + seq![l2], seq![l3]);
    lemma_terminated_concat(seq![l0] + seq![l1], seq![l2]);
    lemma_terminated_concat(seq![l0], seq![l1]);
    lemma_terminated_one(l0);
    lemma_terminated_one(l1);
    lemma_terminated_one(l2);
    lemma_terminated_one(l3);
    assert(frontmatter_head(p) =~= "---\n"@ + terminated(head));
}

#[verifier::spinoff_prover]
proof fn lemma_fm_tags(p: ProjectView)
    ensures
        tags_text(p.tags) == terminated(fm_tag_lines(p)),
{
    reveal_strlit("tags: []\n");
    reveal_strlit("tags:\n");
    reveal_strlit("tags: []");
    reveal_strlit("tags:");
    let tl = fm_tag_lines(p);
    if p.tags.len() == 0 {
        lemma_terminated_one("tags: []"@);
        assert(tags_text(p.tags) =~= terminated(tl));
    } else {
        let ts = Seq::new(p.tags.len(), |i: int| "- "@ + yaml_scalar(p.tags[i]));
        lemma_tag_lines(p.tags);
        lemma_terminated_concat(seq!["tags:"@], ts);
        lemma_terminated_one("tags:"@);
        assert(tags_text(p.tags) =~= terminated(tl));
    }
}

#[verifier::spinoff_prover]
proof fn lemma_fm_tail(p: ProjectView)
    ensures
        frontmatter_tail(p) == terminated(fm_tail_lines(p)) + "---"@,
{
    reveal_strlit("target: '");
    reveal_strlit("'\n");
    reveal_strlit("'");
    reveal_strlit("\n");
    reveal_strlit("active_issue: ");
    let tg = match p.target {
        Some(t) => seq!["target: '"@ + date_text(t) + "'"@],
        None => Seq::<Seq<char>>::empty(),
    };
    let ai = match p.active_issue {
        Some(n) => seq!["active_issue: "@ + dec(n as nat)],
        None => Seq::<Seq<char>>::empty(),
    };
    lemma_terminated_concat(tg, ai);
    match p.target {
        Some(t) => {
            lemma_terminated_one("target: '"@ + date_text(t) + "'"@);
        },
        None => {
            assert(terminated(tg) =~= Seq::<char>::empty());
        },
    }
    match p.active_issue {
        Some(n) => {
            lemma_terminated_one("active_issue: "@ + dec(n as nat));
        },
        None => {
            assert(terminated(ai) =~= Seq::<char>::empty());
        },
    }
    assert(frontmatter_tail(p) =~= terminated(tg) + terminated(ai) + "---"@);
}

proof fn lemma_frontmatter_text(p: ProjectView)
    ensures
        frontmatter_text(p) == "---\n"@ + terminated(frontmatter_lines(p)) + "---"@,
{
    let head = fm_head_lines(p);
    let tl = fm_tag_lines(p);
    let tt = fm_tail_lines(p);
    assert(frontmatter_lines(p) =~= head + tl + tt);
    lemma_terminated_concat(head + tl, tt);
    lemma_terminated_concat(head, tl);
    lemma_fm_head(p);
    lemma_fm_tags(p);
    lemma_fm_tail(p);
    assert(frontmatter_text(p) =~= "---\n"@ + terminated(frontmatter_lines(p)) + "---"@);
}

/// A frontmatter line: two characters or more, one line, not starting with `--`.
pub open spec fn fm_line_ok(l: Seq<char>) -> bool {
    &&& l.len() >= 2
    &&& lacks(l, '\n')
    &&& !(l[0] == '-' && l[1] == '-')
}

proof fn lemma_find_skip(s: Seq<char>, a: int, b: int, p: Seq<char>)
    requires
        0 <= a <= b,
        forall|k: int| a <= k < b ==> #[trigger] s.subrange(k, k + p.len()) != p || k + p.len() > s.len(),
    ensures
        find_from(s, a, p) == find_from(s, b, p),
    decreases b - a,
{
    if a < b {
        lemma_find_skip(s, a + 1, b, p);
    }
}

#[verifier::spinoff_prover]
#[verifier::rlimit(40)]
proof fn lemma_find_closing(ls: Seq<Seq<char>>, r: Seq<char>)
    requires
        ls.len() >= 1,
        forall|i: int| 0 <= i < ls.len() ==> fm_line_ok(#[trigger] ls[i]),
        r.len() >= 3,
        r[0] == '-' && r[1] == '-' && r[2] == '-',
    ensures
        find_from(terminated(ls) + r, 0, "\n---"@) == Some(terminated(ls).len() - 1),
    decreases ls.len(),
{
    reveal_strlit("\n---");
    let pat = "\n---"@;
    let l0 = ls[0];
    let rest = ls.drop_first();
    assert(fm_line_ok(l0));
    assert(ls =~= seq![l0] + rest);
    lemma_terminated_concat(seq![l0], rest);
    lemma_terminated_one(l0);
    let s = terminated(ls) + r;
    let n = l0.len() as int;
    assert(s =~= l0 + seq!['\n'] + (terminated(rest) + r));
    assert forall|k: int| 0 <= k < n implies #[trigger] s.subrange(k, k + pat.len()) != pat || k
        + pat.len() > s.len() by {
        if k + 4 <= s.len() {
            assert(s.subrange(k, k + 4)[0] == s[k]);
            assert(s[k] == l0[k]);
        }
    }
    lemma_find_skip(s, 0, n, pat);
    if rest.len() == 0 {
        assert(terminated(rest) =~= Seq::<char>::empty());
        assert(s.subrange(n, n + 4) =~= pat);
        assert(find_from(s, n, pat) == Some(n));
    } else {
        assert(fm_line_ok(rest[0]));
        lemma_terminated_concat(seq![rest[0]], rest.drop_first());
        assert(rest =~= seq![rest[0]] + rest.drop_first());
        lemma_terminated_one(rest[0]);
        assert(s[n + 1] == rest[0][0]);
        assert(s[n + 2] == rest[0][1]);
        assert(s.subrange(n, n + 4) != pat) by {
            assert(s.subrange(n, n + 4)[1] == s[n + 1]);
            assert(s.subrange(n, n + 4)[2] == s[n + 2]);
        }
        assert forall|i: int| 0 <= i < rest.len() implies fm_line_ok(#[trigger] rest[i]) by {
            assert(rest[i] == ls[i + 1]);
        }
        lemma_find_closing(rest, r);
        lemma_find_from_skip(s, n + 1, 0, pat);
        assert(s.skip(n + 1) =~= terminated(rest) + r);
        lemma_find_skip(s, n, n + 1, pat);
    }
}

#[verifier::spinoff_prover]
#[verifier::rlimit(40)]
proof fn lemma_frontmatter_lines_ok(p: ProjectView)
    requires
        lacks(p.name, '\n'),
        forall|i: int| 0 <= i < p.tags.len() ==> lacks(#[trigger] p.tags[i], '\n'),
    ensures
        forall|i: int| 0 <= i < frontmatter_lines(p).len() ==> fm_line_ok(#[trigger] frontmatter_lines(p)[i]),
        frontmatter_lines(p).len() >= 1,
{
    reveal_strlit("created: '");
    reveal_strlit("'");
    reveal_strlit("name: ");
    reveal_strlit("priority: ");
    reveal_strlit("status: ");
    reveal_strlit("tags: []");
    reveal_strlit("tags:");
    reveal_strlit("target: '");
    reveal_strlit("active_issue: ");
    reveal_strlit("- ");
    reveal_strlit("high");
    reveal_strlit("medium");
    reveal_strlit("low");
    reveal_strlit("active");
    reveal_strlit("blocked");
    reveal_strlit("pending");
    reveal_strlit("parked");
    reveal_strlit("done");
    let ls = frontmatter_lines(p);
    crate::issue::lemma_date_text_lacks(p.created);
    lemma_yaml_scalar_lacks(p.name);
    assert forall|i: int| 0 <= i < ls.len() implies fm_line_ok(#[trigger] ls[i]) by {
        let l = ls[i];
        assert(l.len() >= 2);
        assert(l[0] != '-' || l[1] != '-');
        if i == 0 {
            crate::issue::lemma_lacks_concat("created: '"@, date_text(p.created), '\n');
            crate::issue::lemma_lacks_concat("created: '"@ + date_text(p.created), "'"@, '\n');
        } else if i == 1 {
            crate::issue::lemma_lacks_concat("name: "@, yaml_scalar(p.name), '\n');
        } else if i == 2 {
            crate::issue::lemma_lacks_concat("priority: "@, priority_name(p.priority), '\n');
        } else if i == 3 {
            crate::issue::lemma_lacks_concat("status: "@, status_name(p.status), '\n');
        } else {
            let tl = fm_tag_lines(p);
            let tt = fm_tail_lines(p);
            assert(ls =~= fm_head_lines(p) + tl + tt);
            if i < 4 + tl.len() {
                assert(l == tl[i - 4]);
                if i > 4 {
                    let t = p.tags[i - 5];
                    assert(lacks(t, '\n'));
                    lemma_yaml_scalar_lacks(t);
                    crate::issue::lemma_lacks_concat("- "@, yaml_scalar(t), '\n');
                }
            } else {
                assert(l == tt[i - 4 - tl.len()]);
                match p.target {
                    Some(t) => {
                        crate::issue::lemma_date_text_lacks(t);
                        crate::issue::lemma_lacks_concat("target: '"@, date_text(t), '\n');
                        crate::issue::lemma_lacks_concat("target: '"@ + date_text(t), "'"@, '\n');
                    },
                    None => {},
                }
                match p.active_issue {
                    Some(n) => {
                        crate::text::lemma_dec_lacks(n as nat, '\n');
                        crate::issue::lemma_lacks_concat("active_issue: "@, dec(n as nat), '\n');
                    },
                    None => {},
                }
            }
        }
    }
}

// ── The last character ───────────────────────────────────────────────

proof fn lemma_trimmed_end(l: Seq<char>)
    requires
        l.len() > 0,
        trim(l) == l,
    ensures
        !is_ws(l.last()),
{
    lemma_trim_start_bounds(l);
    lemma_trim_end_bounds(trim_start(l));
}

/// A line that ends in something other than white space.
pub open spec fn ends_solid(l: Seq<char>) -> bool {
    l.len() > 0 && !is_ws(l.last())
}

/// Whether the project has sections other than its focus.
pub open spec fn only_focus(p: ProjectView) -> bool {
    p.blockers.len() == 0 && p.decisions.len() == 0 && p.log.len() == 0
}

#[verifier::spinoff_prover]
#[verifier::rlimit(40)]
proof fn lemma_last_group_end(p: ProjectView)
    requires
        body_ok(p),
        !only_focus(p),
        ascii_digits_match(),
    ensures
        project_groups(p).len() >= 1,
        forall|i: int|
            0 <= i < project_groups(p).last().1.len() ==> ends_solid(
                #[trigger] project_groups(p).last().1[i],
            ),
{
    let fg = if p.current_focus.len() > 0 {
        seq![("Current Focus"@, seq![p.current_focus])]
    } else {
        Seq::empty()
    };
    let bg = if p.blockers.len() > 0 {
        seq![("Blockers"@, blocker_lines(p.blockers))]
    } else {
        Seq::empty()
    };
    let dg = if p.decisions.len() > 0 {
        seq![("Decisions"@, decisions_lines(p.decisions))]
    } else {
        Seq::empty()
    };
    let lg = if p.log.len() > 0 {
        seq![("Log"@, log_lines(p.log))]
    } else {
        Seq::empty()
    };
    let gs = project_groups(p);
    assert(gs == fg + bg + dg + lg);
    if p.log.len() > 0 {
        assert(gs.last() == lg[0]);
        lemma_log_lines_end(p.log);
    } else if p.decisions.len() > 0 {
        assert(gs.last() == dg[0]);
        lemma_decision_lines_end(p.decisions);
    } else {
        assert(gs.last() == bg[0]);
        let ls = blocker_lines(p.blockers);
        assert forall|i: int| 0 <= i < ls.len() implies ends_solid(#[trigger] ls[i]) by {
            reveal_strlit("- [");
            assert(blocker_ok(p.blockers[i]));
            lemma_blocker_line(p.blockers[i]);
            assert(ls[i] == blocker_line(p.blockers[i]));
            assert(ls[i][0] == '-');
            lemma_trimmed_end(ls[i]);
        }
    }
}

#[verifier::spinoff_prover]
#[verifier::rlimit(40)]
proof fn lemma_decision_lines_end(ds: Seq<DecisionView>)
    requires
        decisions_ok(ds),
        ascii_digits_match(),
    ensures
        forall|i: int| 0 <= i < decisions_lines(ds).len() ==> ends_solid(#[trigger] decisions_lines(ds)[i]),
    decreases ds.len(),
{
    reveal_strlit("- **");
    reveal_strlit("  - Alternatives: ");
    if ds.len() > 0 {
        let q = ds.drop_last();
        assert forall|i: int| 0 <= i < q.len() implies decision_ok(#[trigger] q[i]) by {
            assert(q[i] == ds[i]);
        }
        lemma_decision_lines_end(q);
        let d = ds.last();
        assert(decision_ok(ds[ds.len() - 1]));
        lemma_decision_head(d);
        let dl = decision_lines(d);
        let head = "- **"@ + date_text(d.date) + ":** "@ + d.choice;
        assert(dl[0] == head);
        assert(head[0] == '-');
        lemma_trimmed_end(head);
        if d.alternatives.len() > 0 {
            lemma_project_list_join(d.alternatives);
            let j = join(d.alternatives, ", "@);
            let al = "  - Alternatives: "@ + j;
            assert(dl[1] == al);
            assert(al.last() == j.last());
        }
        let all = decisions_lines(ds);
        assert(all == decisions_lines(q) + dl);
        assert forall|i: int| 0 <= i < all.len() implies ends_solid(#[trigger] all[i]) by {
            if i < decisions_lines(q).len() {
                assert(all[i] == decisions_lines(q)[i]);
            } else {
                assert(all[i] == dl[i - decisions_lines(q).len()]);
            }
        }
    }
}

#[verifier::spinoff_prover]
#[verifier::rlimit(40)]
proof fn lemma_log_lines_end(es: Seq<LogEntryView>)
    requires
        log_ok(es),
    ensures
        forall|i: int| 0 <= i < log_lines(es).len() ==> ends_solid(#[trigger] log_lines(es)[i]),
    decreases es.len(),
{
    reveal_strlit("### ");
    reveal_strlit("- ");
    if es.len() > 0 {
        let q = es.drop_last();
        assert forall|i: int| 0 <= i < q.len() implies entry_ok(#[trigger] q[i]) by {
            assert(q[i] == es[i]);
        }
        lemma_log_lines_end(q);
        let e = es.last();
        assert(entry_ok(es[es.len() - 1]));
        let el = entry_lines(e);
        assert(el =~= seq!["### "@ + date_text(e.date)] + item_lines(e.lines));
        lemma_date_shape(e.date);
        assert forall|i: int| 0 <= i < el.len() implies ends_solid(#[trigger] el[i]) by {
            if i == 0 {
                let h = "### "@ + date_text(e.date);
                assert(el[0] == h);
                assert(h.last() == date_text(e.date)[9]);
                assert(is_digit(date_text(e.date)[9]));
            } else {
                let x = e.lines[i - 1];
                assert(log_line_ok(x));
                assert(el[i] == "- "@ + x);
                assert(("- "@ + x).last() == x.last());
            }
        }
        let all = log_lines(es);
        assert(all == log_lines(q) + el);
        assert forall|i: int| 0 <= i < all.len() implies ends_solid(#[trigger] all[i]) by {
            if i < log_lines(q).len() {
                assert(all[i] == log_lines(q)[i]);
            } else {
                assert(all[i] == el[i - log_lines(q).len()]);
            }
        }
    }
}

proof fn lemma_groups_last(gs: Seq<(Seq<char>, Seq<Seq<char>>)>)
    requires
        gs.len() >= 1,
        forall|k: int| 0 <= k < gs.len() ==> group_ok(#[trigger] gs[k]),
        forall|i: int| 0 <= i < gs.last().1.len() ==> ends_solid(#[trigger] gs.last().1[i]),
    ensures
        groups_lines(gs).len() >= 1,
        ends_solid(groups_lines(gs).last()),
{
    reveal_strlit("## ");
    lemma_groups_lines_len(gs);
    let g = gs.last();
    assert(group_ok(gs[gs.len() - 1]));
    let gl = group_lines_of(g);
    assert(groups_lines(gs).last() == gl.last()) by {
        if gs.len() == 1 {
            assert(gs[0] == g);
        }
    }
    if g.1.len() == 0 {
        assert(gl.last() == "## "@ + g.0);
        assert(("## "@ + g.0).last() == g.0.last());
    } else {
        assert(gl.last() == g.1[g.1.len() - 1]);
        assert(ends_solid(gs.last().1[g.1.len() - 1]));
    }
}

// ── Reading a project file back ─────────────────────────────────────

/// A project that its markdown describes: a one-line name and tags, and a body that reads
/// back.
pub open spec fn project_ok(p: ProjectView) -> bool {
    &&& lacks(p.name, '\n')
    &&& forall|i: int| 0 <= i < p.tags.len() ==> lacks(#[trigger] p.tags[i], '\n')
    &&& body_ok(p)
}

#[verifier::spinoff_prover]
#[verifier::rlimit(40)]
proof fn lemma_body_text_end(p: ProjectView)
    requires
        body_ok(p),
        !only_focus(p),
        ascii_digits_match(),
    ensures
        body_text(p).len() > 0,
        !is_ws(body_text(p).last()),
{
    reveal_strlit("\n");
    let gs = project_groups(p);
    lemma_project_groups_text(p);
    lemma_groups_text(gs);
    lemma_project_groups_ok(p);
    lemma_last_group_end(p);
    lemma_groups_last(gs);
    let gl = groups_lines(gs);
    let e = seq![Seq::<char>::empty()];
    lemma_join_concat(e, gl, seq!['\n']);
    assert(join(e, seq!['\n']) =~= Seq::<char>::empty());
    assert("\n"@ =~= seq!['\n']);
    assert(body_text(p) =~= join(e + gl, seq!['\n']));
    assert((e + gl).last() == gl.last());
    lemma_join_last(e + gl, seq!['\n']);
}

/// What the frontmatter split hands on as the body: the body text, without the white space
/// that ends the file where the focus is the last section.
pub open spec fn read_body(p: ProjectView) -> Seq<char> {
    if only_focus(p) && p.current_focus.len() > 0 {
        if trim_end(p.current_focus).len() > 0 {
            "\n## Current Focus\n"@ + trim_end(p.current_focus)
        } else {
            "\n## Current Focus"@
        }
    } else {
        body_text(p)
    }
}

proof fn lemma_trim_end_concat(a: Seq<char>, b: Seq<char>)
    ensures
        trim_end(b).len() > 0 ==> trim_end(a + b) == a + trim_end(b),
        trim_end(b).len() == 0 ==> trim_end(a + b) == trim_end(a),
    decreases b.len(),
{
    if b.len() == 0 {
        assert(a + b =~= a);
    } else if is_ws(b.last()) {
        lemma_trim_end_concat(a, b.drop_last());
        assert((a + b).drop_last() =~= a + b.drop_last());
        assert((a + b).last() == b.last());
    } else {
        assert((a + b).last() == b.last());
    }
}

#[verifier::spinoff_prover]
#[verifier::rlimit(60)]
proof fn lemma_split_general(text: Seq<char>, p: ProjectView, rb: Seq<char>)
    requires
        project_ok(p),
        trim(crate::text::strip_leading(text, '\u{feff}')) == frontmatter_text(p) + (if rb.len() > 0 {
            seq!['\n'] + rb
        } else {
            Seq::<char>::empty()
        }),
    ensures
        frontmatter_split(text) == Some((project_yaml(p), rb)),
{
    reveal_strlit("---\n");
    reveal_strlit("---");
    reveal_strlit("\n---");
    let fl = frontmatter_lines(p);
    lemma_frontmatter_lines_ok(p);
    lemma_frontmatter_text(p);
    let t = terminated(fl);
    assert(t.len() >= 1) by {
        assert(t == terminated(fl.drop_last()) + fl.last() + seq!['\n']);
    }
    let tail = if rb.len() > 0 {
        seq!['\n'] + rb
    } else {
        Seq::<char>::empty()
    };
    let tt = trim(crate::text::strip_leading(text, '\u{feff}'));
    assert(tt =~= "---\n"@ + t + "---"@ + tail);
    assert(tt.subrange(0, 3) =~= "---"@);
    let a0 = tt.skip(3);
    assert(a0 =~= seq!['\n'] + (t + "---"@ + tail));
    let a = a0.skip(1);
    assert(a =~= t + ("---"@ + tail));
    lemma_find_closing(fl, "---"@ + tail);
    let pos = t.len() - 1;
    assert(a.subrange(0, pos) =~= t.drop_last());
    let rest = a.skip(pos + 4);
    assert(rest =~= tail);
    if rb.len() > 0 {
        assert(rest[0] == '\n');
        assert(rest.skip(1) =~= rb);
    }
}

#[verifier::spinoff_prover]
#[verifier::rlimit(60)]
pub(crate) proof fn lemma_split_project(p: ProjectView)
    requires
        project_ok(p),
        ascii_digits_match(),
    ensures
        frontmatter_split(project_text(p)) == Some((project_yaml(p), read_body(p))),
{
    reveal_strlit("---\n");
    reveal_strlit("---");
    reveal_strlit("\n\n");
    reveal_strlit("\n");
    reveal_strlit("## Current Focus\n");
    reveal_strlit("\n## Current Focus\n");
    reveal_strlit("\n## Current Focus");
    lemma_frontmatter_text(p);
    let f = frontmatter_text(p);
    let text = project_text(p);
    assert(f[0] == '-');
    assert(f.last() == '-');
    assert(text[0] == '-');
    assert(crate::text::strip_leading(text, '\u{feff}') == text);
    if body_sections(p).len() == 0 {
        assert(text =~= f);
        assert(is_trimmed(text));
        lemma_trim_trimmed(text);
        assert(read_body(p) =~= Seq::<char>::empty());
        lemma_split_general(text, p, read_body(p));
    } else if !only_focus(p) {
        let j = join(body_sections(p), "\n\n"@);
        assert(text =~= f + (seq!['\n'] + body_text(p)));
        lemma_body_text_end(p);
        assert(text.last() == body_text(p).last());
        assert(is_trimmed(text));
        lemma_trim_trimmed(text);
        lemma_split_general(text, p, read_body(p));
    } else {
        let focus = p.current_focus;
        assert(focus.len() > 0);
        reveal_strlit("\n\n## Current Focus\n");
        reveal_strlit("\n\n## Current Focus");
        assert(body_sections(p) =~= seq!["## Current Focus\n"@ + focus]);
        assert(join(body_sections(p), "\n\n"@) == "## Current Focus\n"@ + focus);
        let pre = f + "\n\n## Current Focus\n"@;
        assert(text =~= pre + focus);
        assert(trim_start(text) == text);
        lemma_trim_end_concat(pre, focus);
        let tf = trim_end(focus);
        if tf.len() > 0 {
            assert(trim(text) == pre + tf);
            assert(pre + tf =~= f + (seq!['\n'] + read_body(p)));
        } else {
            let pre2 = f + "\n\n## Current Focus"@;
            assert(pre =~= pre2 + seq!['\n']);
            assert(pre.drop_last() =~= pre2);
            assert(pre.last() == '\n');
            assert(trim_end(pre) == trim_end(pre2));
            assert(pre2.last() == 's');
            assert(trim_end(pre2) == pre2);
            assert(trim(text) == pre2);
            assert(pre2 =~= f + (seq!['\n'] + read_body(p)));
        }
        lemma_split_general(text, p, read_body(p));
    }
}

#[verifier::spinoff_prover]
#[verifier::rlimit(60)]
pub(crate) proof fn lemma_read_body_round_trip(p: ProjectView)
    requires
        body_ok(p),
        ascii_digits_match(),
    ensures
        project_body(read_body(p)) == Some(body_view(p)),
{
    reveal_strlit("\n");
    reveal_strlit("\n\n");
    reveal_strlit("## Current Focus\n");
    reveal_strlit("\n## Current Focus\n");
    reveal_strlit("\n## Current Focus");
    reveal_strlit("## ");
    reveal_strlit("Current Focus");
    if only_focus(p) && p.current_focus.len() > 0 {
        let focus = p.current_focus;
        let tf = trim_end(focus);
        lemma_trim_end_bounds(focus);
        lemma_trim_of_trim_end(focus);
        if tf.len() > 0 {
            let p2 = ProjectView { current_focus: tf, ..p };
            assert(lacks(tf, '\n')) by {
                assert forall|i: int| 0 <= i < tf.len() implies #[trigger] tf[i] != '\n' by {
                    assert(tf[i] == focus[i]);
                }
            }
            assert(!has_prefix_at(tf, 0, "## "@)) by {
                if tf.len() >= 3 {
                    assert(tf.subrange(0, 3) =~= focus.subrange(0, 3));
                }
            }
            assert(body_ok(p2));
            assert(body_sections(p2) =~= seq!["## Current Focus\n"@ + tf]);
            assert(join(body_sections(p2), "\n\n"@) == "## Current Focus\n"@ + tf);
            assert(body_text(p2) =~= read_body(p));
            lemma_body_round_trip(p2);
            assert(body_view(p2) == body_view(p));
        } else {
            let g = ("Current Focus"@, Seq::<Seq<char>>::empty());
            let gs = seq![g];
            assert(group_ok(g));
            assert(groups_lines(gs) =~= seq!["## "@ + "Current Focus"@]);
            let e = seq![Seq::<char>::empty()];
            let ls = e + groups_lines(gs);
            assert("## "@ + "Current Focus"@ =~= "## Current Focus"@) by {
                reveal_strlit("## Current Focus");
            }
            assert(join(ls, seq!['\n']) =~= read_body(p)) by {
                reveal_strlit("## Current Focus");
                assert(ls.drop_last() =~= e);
                assert(join(e, seq!['\n']) =~= Seq::<char>::empty());
            }
            assert forall|i: int| 0 <= i < ls.len() implies lacks(#[trigger] ls[i], '\n') by {
                reveal_strlit("## Current Focus");
            }
            lemma_split_join(ls);
            lemma_sections_steps(ls);
            lemma_read_groups(gs);
            assert(read_groups(gs) =~= gs);
            lemma_apply_one(empty_body(), g);
            assert(join(Seq::<Seq<char>>::empty(), "\n"@) =~= Seq::<char>::empty());
            assert(trim(Seq::<char>::empty()) =~= Seq::<char>::empty());
            assert(trim(focus) =~= Seq::<char>::empty());
            assert(p.blockers =~= Seq::<BlockerView>::empty());
            assert(p.decisions =~= Seq::<DecisionView>::empty());
            assert(p.log =~= Seq::<LogEntryView>::empty());
            assert(body_view(p) == BodyView { focus: Seq::<char>::empty(), ..empty_body() });
        }
    } else {
        lemma_body_round_trip(p);
    }
}

proof fn lemma_join_last(ls: Seq<Seq<char>>, sep: Seq<char>)
    requires
        ls.len() >= 1,
        ls.last().len() > 0,
    ensures
        join(ls, sep).len() > 0,
        join(ls, sep).last() == ls.last().last(),
{
    if ls.len() == 1 {
        assert(ls.last() == ls[0]);
    } else {
        assert(join(ls, sep) == join(ls.drop_last(), sep) + sep + ls.last());
    }
}

/// Reading the markdown form of a well-formed project does not panic, hands YAML parsing
/// the frontmatter's lines, and, where that YAML parses, gives back the project's focus
/// (trimmed), blockers, decisions and log.
pub proof fn lemma_project_round_trip(p: ProjectView, slug: Option<Seq<char>>, today: Date)
    requires
        project_ok(p),
    ensures
        !reading_panics(project_text(p)),
        match parse_project(project_text(p), slug, today) {
            Some(Ok(q)) => {
                &&& yaml_parses(project_yaml(p))
                &&& q.current_focus == trim(p.current_focus)
                &&& q.blockers == p.blockers
                &&& q.decisions == p.decisions
                &&& q.log == p.log
            },
            Some(Err(e)) => !yaml_parses(project_yaml(p)) && e == "YAML parse error: "@ + yaml_error(
                project_yaml(p),
            ),
            None => false,
        },
{
    lemma_ascii_digits_match();
    lemma_split_project(p);
    lemma_read_body_round_trip(p);
}

} // verus!
