//! A project's frontmatter as a YAML document, and what reading it back gives.
use vstd::prelude::*;
use crate::date::{chrono_parse_ymd, date_text, lemma_date_read_back, year_text, Date};
use crate::project::{project_text, slug_of, ProjectView};
use crate::person_laws::lemma_ascii_digits_match;
use crate::project_laws::{
    body_view, frontmatter_lines, lemma_read_body_round_trip, lemma_split_project, project_ok,
    project_yaml,
};
use crate::project_md::{parse_project, project_of, string_items};
use crate::status::{lemma_priority_parse_name, lemma_status_parse_name};
use crate::status::{priority_name, status_name, Priority, Status};
use crate::text::{dec, dec_pad, is_digit, join, lemma_dec_digits, terminated, trim};
use crate::text::{ascii_lower_char, lacks, run_len};
use crate::yaml::{
    ascii_letter, ascii_lower_seq, digit_run, key_ok, number_syntax, scalar_ok, item_ok, not_keyword,
    yaml_printable, yaml_keyword,
    doc_lines, doc_lookup, doc_ok, doc_text, double_quotes, float_syntax, item_lines, item_meta,
    scalar_text, scalar_value, written_doc, yaml_lookup, yaml_parses, yaml_plain, yaml_scalar,
    MetaView, YamlItem, YamlScalar,
};

verus! {

broadcast use vstd::string::group_string_axioms;

/// How a string is written as a scalar: plain where YAML would read it back as that string,
/// else single-quoted.
pub open spec fn written_scalar(s: Seq<char>) -> YamlScalar {
    if yaml_plain(s) && !(chrono_parse_ymd(s) is Some || float_syntax(s)) {
        YamlScalar::Plain(s)
    } else {
        YamlScalar::Quoted(s)
    }
}

/// The frontmatter of a project as a YAML document: its keys in the order they are written.
pub open spec fn frontmatter_doc(p: ProjectView) -> Seq<(Seq<char>, YamlItem)> {
    seq![
        ("created"@, YamlItem::Scalar(YamlScalar::Quoted(date_text(p.created)))),
        ("name"@, YamlItem::Scalar(written_scalar(p.name))),
        ("priority"@, YamlItem::Scalar(YamlScalar::Plain(priority_name(p.priority)))),
        ("status"@, YamlItem::Scalar(YamlScalar::Plain(status_name(p.status)))),
        ("tags"@, YamlItem::List(Seq::new(p.tags.len(), |i: int| written_scalar(p.tags[i])))),
    ] + (match p.target {
        Some(t) => seq![("target"@, YamlItem::Scalar(YamlScalar::Quoted(date_text(t))))],
        None => Seq::empty(),
    }) + (match p.active_issue {
        Some(n) => seq![("active_issue"@, YamlItem::Int(n))],
        None => Seq::empty(),
    })
}

proof fn lemma_no_quote_double(s: Seq<char>)
    requires
        forall|i: int| 0 <= i < s.len() ==> #[trigger] s[i] != '\'',
    ensures
        double_quotes(s) == s,
    decreases s.len(),
{
    if s.len() > 0 {
        let q = s.drop_last();
        assert forall|i: int| 0 <= i < q.len() implies #[trigger] q[i] != '\'' by {
            assert(q[i] == s[i]);
        }
        lemma_no_quote_double(q);
        assert(s.last() == s[s.len() - 1]);
        assert(q.push(s.last()) =~= s);
    }
}

proof fn lemma_dec_pad_digits(n: nat, w: nat)
    ensures
        forall|i: int| 0 <= i < dec_pad(n, w).len() ==> is_digit(#[trigger] dec_pad(n, w)[i]),
{
    lemma_dec_digits(n);
    let z = (if dec(n).len() < w { w - dec(n).len() } else { 0 }) as nat;
    assert forall|i: int| 0 <= i < dec_pad(n, w).len() implies is_digit(#[trigger] dec_pad(n, w)[i]) by {
        if i >= z {
            assert(dec_pad(n, w)[i] == dec(n)[i - z]);
        }
    }
}

/// A date's text holds digits, `-` and `+` only, so no `'`.
proof fn lemma_date_text_no_quote(d: Date)
    ensures
        forall|i: int| 0 <= i < date_text(d).len() ==> #[trigger] date_text(d)[i] != '\'',
        forall|i: int|
            0 <= i < date_text(d).len() ==> is_digit(#[trigger] date_text(d)[i]) || date_text(d)[i]
                == '-' || date_text(d)[i] == '+',
        double_quotes(date_text(d)) == date_text(d),
{
    let y: int = d.year as int;
    let n: nat = (if y < 0 { -y } else { y }) as nat;
    lemma_dec_pad_digits(n, 4);
    lemma_dec_pad_digits(d.month as nat, 2);
    lemma_dec_pad_digits(d.day as nat, 2);
    let yt = year_text(y);
    assert forall|i: int| 0 <= i < yt.len() implies is_digit(#[trigger] yt[i]) || yt[i] == '-'
        || yt[i] == '+' by {
        if 0 <= y <= 9999 {
            assert(yt[i] == dec_pad(n, 4)[i]);
        } else if i > 0 {
            assert(yt[i] == dec_pad(n, 4)[i - 1]);
        }
    }
    let t = date_text(d);
    let m = dec_pad(d.month as nat, 2);
    let dd = dec_pad(d.day as nat, 2);
    assert(t =~= yt + seq!['-'] + m + seq!['-'] + dd);
    assert forall|i: int| 0 <= i < t.len() implies is_digit(#[trigger] t[i]) || t[i] == '-' || t[i]
        == '+' by {
        if i < yt.len() {
            assert(t[i] == yt[i]);
        } else if i == yt.len() {
        } else if i < yt.len() + 1 + m.len() {
            assert(t[i] == m[i - yt.len() - 1]);
        } else if i == yt.len() + 1 + m.len() {
        } else {
            assert(t[i] == dd[i - yt.len() - 2 - m.len()]);
        }
    }
    assert forall|i: int| 0 <= i < t.len() implies #[trigger] t[i] != '\'' by {
        assert(is_digit(t[i]) || t[i] == '-' || t[i] == '+');
    }
    lemma_no_quote_double(t);
}

/// The scalar a string is written as has the text that `yaml_scalar` gives.
proof fn lemma_written_scalar_text(s: Seq<char>)
    ensures
        scalar_text(written_scalar(s)) == yaml_scalar(s),
        scalar_value(written_scalar(s)) == s,
{
    if yaml_plain(s) {
        assert forall|i: int| 0 <= i < s.len() implies #[trigger] s[i] != '\'' by {
            assert(crate::yaml::plain_char(s[i]));
            if (s[i] as u32) >= 128 {
                assert(s[i] != '\'');
            }
        }
        lemma_no_quote_double(s);
    } else if s.len() == 0 {
        assert(double_quotes(s) =~= Seq::<char>::empty());
        assert(seq!['\''] + double_quotes(s) + seq!['\''] =~= seq!['\'', '\'']);
    }
}

proof fn lemma_doc_lines_concat(a: Seq<(Seq<char>, YamlItem)>, b: Seq<(Seq<char>, YamlItem)>)
    ensures
        doc_lines(a + b) == doc_lines(a) + doc_lines(b),
    decreases b.len(),
{
    if b.len() == 0 {
        assert(a + b =~= a);
        assert(doc_lines(a) + doc_lines(b) =~= doc_lines(a));
    } else {
        assert((a + b).drop_last() =~= a + b.drop_last());
        assert((a + b).last() == b.last());
        lemma_doc_lines_concat(a, b.drop_last());
        assert(doc_lines(a + b) =~= doc_lines(a) + doc_lines(b));
    }
}

proof fn lemma_doc_lines_one(k: Seq<char>, v: YamlItem)
    ensures
        doc_lines(seq![(k, v)]) == item_lines(k, v),
{
    let d = seq![(k, v)];
    assert(d.drop_last() =~= Seq::<(Seq<char>, YamlItem)>::empty());
    assert(doc_lines(d.drop_last()) == Seq::<Seq<char>>::empty());
    assert(d.last() == (k, v));
    assert(doc_lines(d) =~= item_lines(k, v));
}

proof fn lemma_terminated_join(ls: Seq<Seq<char>>)
    requires
        ls.len() >= 1,
    ensures
        terminated(ls).drop_last() == join(ls, "\n"@),
        terminated(ls) == join(ls, "\n"@) + seq!['\n'],
    decreases ls.len(),
{
    reveal_strlit("\n");
    if ls.len() == 1 {
        assert(ls.drop_last() =~= Seq::<Seq<char>>::empty());
        assert(terminated(ls.drop_last()) == Seq::<char>::empty());
        assert(ls.last() == ls[0]);
        assert(terminated(ls) =~= ls[0] + seq!['\n']);
        assert(terminated(ls).drop_last() =~= ls[0]);
    } else {
        let dl = ls.drop_last();
        lemma_terminated_join(dl);
        assert(terminated(ls) =~= join(dl, "\n"@) + "\n"@ + ls.last() + seq!['\n']);
        assert(terminated(ls).drop_last() =~= join(dl, "\n"@) + "\n"@ + ls.last());
    }
}

/// The frontmatter document's lines are the lines a project's frontmatter is written as.
proof fn lemma_frontmatter_doc_lines(p: ProjectView)
    ensures
        doc_lines(frontmatter_doc(p)) == frontmatter_lines(p),
        doc_text(frontmatter_doc(p)) == project_yaml(p),
{
    reveal_strlit(": ");
    reveal_strlit(": []");
    reveal_strlit(":");
    reveal_strlit("created");
    reveal_strlit("name");
    reveal_strlit("priority");
    reveal_strlit("status");
    reveal_strlit("tags");
    reveal_strlit("target");
    reveal_strlit("active_issue");
    reveal_strlit("created: '");
    reveal_strlit("'");
    reveal_strlit("name: ");
    reveal_strlit("priority: ");
    reveal_strlit("status: ");
    reveal_strlit("tags: []");
    reveal_strlit("tags:");
    reveal_strlit("target: '");
    reveal_strlit("active_issue: ");
    let e0 = ("created"@, YamlItem::Scalar(YamlScalar::Quoted(date_text(p.created))));
    let e1 = ("name"@, YamlItem::Scalar(written_scalar(p.name)));
    let e2 = ("priority"@, YamlItem::Scalar(YamlScalar::Plain(priority_name(p.priority))));
    let e3 = ("status"@, YamlItem::Scalar(YamlScalar::Plain(status_name(p.status))));
    let ws = Seq::new(p.tags.len(), |i: int| written_scalar(p.tags[i]));
    let e4 = ("tags"@, YamlItem::List(ws));
    let tg: Seq<(Seq<char>, YamlItem)> = match p.target {
        Some(t) => seq![("target"@, YamlItem::Scalar(YamlScalar::Quoted(date_text(t))))],
        None => Seq::empty(),
    };
    let ai: Seq<(Seq<char>, YamlItem)> = match p.active_issue {
        Some(n) => seq![("active_issue"@, YamlItem::Int(n))],
        None => Seq::empty(),
    };
    let d = frontmatter_doc(p);
    assert(d =~= seq![e0] + seq![e1] + seq![e2] + seq![e3] + seq![e4] + tg + ai);
    lemma_doc_lines_concat(seq![e0] + seq![e1] + seq![e2] + seq![e3] + seq![e4] + tg, ai);
    lemma_doc_lines_concat(seq![e0] + seq![e1] + seq![e2] + seq![e3] + seq![e4], tg);
    lemma_doc_lines_concat(seq![e0] + seq![e1] + seq![e2] + seq![e3], seq![e4]);
    lemma_doc_lines_concat(seq![e0] + seq![e1] + seq![e2], seq![e3]);
    lemma_doc_lines_concat(seq![e0] + seq![e1], seq![e2]);
    lemma_doc_lines_concat(seq![e0], seq![e1]);
    lemma_doc_lines_one(e0.0, e0.1);
    lemma_doc_lines_one(e1.0, e1.1);
    lemma_doc_lines_one(e2.0, e2.1);
    lemma_doc_lines_one(e3.0, e3.1);
    lemma_doc_lines_one(e4.0, e4.1);
    lemma_date_text_no_quote(p.created);
    lemma_written_scalar_text(p.name);
    assert("created"@ + ": "@ + scalar_text(YamlScalar::Quoted(date_text(p.created))) =~= "created: '"@
        + date_text(p.created) + "'"@);
    assert(item_lines(e0.0, e0.1) =~= seq!["created: '"@ + date_text(p.created) + "'"@]);
    assert("name"@ + ": "@ + scalar_text(written_scalar(p.name)) =~= "name: "@ + yaml_scalar(p.name));
    assert(item_lines(e1.0, e1.1) =~= seq!["name: "@ + yaml_scalar(p.name)]);
    assert("priority"@ + ": "@ + priority_name(p.priority) =~= "priority: "@ + priority_name(p.priority));
    assert(item_lines(e2.0, e2.1) =~= seq!["priority: "@ + priority_name(p.priority)]);
    assert("status"@ + ": "@ + status_name(p.status) =~= "status: "@ + status_name(p.status));
    assert(item_lines(e3.0, e3.1) =~= seq!["status: "@ + status_name(p.status)]);
    let tl: Seq<Seq<char>> = if p.tags.len() == 0 {
        seq!["tags: []"@]
    } else {
        seq!["tags:"@] + Seq::new(p.tags.len(), |i: int| "- "@ + yaml_scalar(p.tags[i]))
    };
    assert(item_lines(e4.0, e4.1) =~= tl) by {
        if p.tags.len() == 0 {
            assert("tags"@ + ": []"@ =~= "tags: []"@);
        } else {
            assert("tags"@ + ":"@ =~= "tags:"@);
            assert forall|i: int| 0 <= i < p.tags.len() implies "- "@ + scalar_text(ws[i]) == "- "@
                + yaml_scalar(p.tags[i]) by {
                lemma_written_scalar_text(p.tags[i]);
            }
            assert(Seq::new(ws.len(), |i: int| "- "@ + scalar_text(ws[i])) =~= Seq::new(
                p.tags.len(),
                |i: int| "- "@ + yaml_scalar(p.tags[i]),
            ));
        }
    }
    let tgl: Seq<Seq<char>> = match p.target {
        Some(t) => seq!["target: '"@ + date_text(t) + "'"@],
        None => Seq::empty(),
    };
    assert(doc_lines(tg) =~= tgl) by {
        match p.target {
            Some(t) => {
                lemma_date_text_no_quote(t);
                lemma_doc_lines_one("target"@, YamlItem::Scalar(YamlScalar::Quoted(date_text(t))));
                assert("target"@ + ": "@ + scalar_text(YamlScalar::Quoted(date_text(t))) =~= "target: '"@
                    + date_text(t) + "'"@);
                assert(item_lines("target"@, YamlItem::Scalar(YamlScalar::Quoted(date_text(t)))) =~= tgl);
            },
            None => {},
        }
    }
    let ail: Seq<Seq<char>> = match p.active_issue {
        Some(n) => seq!["active_issue: "@ + dec(n as nat)],
        None => Seq::empty(),
    };
    assert(doc_lines(ai) =~= ail) by {
        match p.active_issue {
            Some(n) => {
                lemma_doc_lines_one("active_issue"@, YamlItem::Int(n));
                assert("active_issue"@ + ": "@ + dec(n as nat) =~= "active_issue: "@ + dec(n as nat));
                assert(item_lines("active_issue"@, YamlItem::Int(n)) =~= ail);
            },
            None => {},
        }
    }
    assert(doc_lines(d) =~= frontmatter_lines(p));
    lemma_terminated_join(frontmatter_lines(p));
}

proof fn lemma_doc_lookup_at(d: Seq<(Seq<char>, YamlItem)>, i: int)
    requires
        0 <= i < d.len(),
        forall|j: int| 0 <= j < i ==> #[trigger] d[j].0 != d[i].0,
    ensures
        doc_lookup(d, d[i].0) == item_meta(d[i].1),
    decreases i,
{
    if i > 0 {
        let r = d.drop_first();
        assert(r[i - 1] == d[i]);
        assert forall|j: int| 0 <= j < i - 1 implies #[trigger] r[j].0 != r[i - 1].0 by {
            assert(r[j] == d[j + 1]);
        }
        assert(d[0].0 != d[i].0);
        lemma_doc_lookup_at(r, i - 1);
    }
}

proof fn lemma_doc_lookup_absent(d: Seq<(Seq<char>, YamlItem)>, key: Seq<char>)
    requires
        forall|j: int| 0 <= j < d.len() ==> #[trigger] d[j].0 != key,
    ensures
        doc_lookup(d, key) == MetaView::Absent,
    decreases d.len(),
{
    if d.len() > 0 {
        let r = d.drop_first();
        assert forall|j: int| 0 <= j < r.len() implies #[trigger] r[j].0 != key by {
            assert(r[j] == d[j + 1]);
        }
        assert(d[0].0 != key);
        lemma_doc_lookup_absent(r, key);
    }
}

proof fn lemma_string_items_all(items: Seq<Option<Seq<char>>>, xs: Seq<Seq<char>>)
    requires
        items.len() == xs.len(),
        forall|i: int| 0 <= i < items.len() ==> #[trigger] items[i] == Some(xs[i]),
    ensures
        string_items(items) == xs,
    decreases items.len(),
{
    if items.len() > 0 {
        let a = items.drop_last();
        let b = xs.drop_last();
        assert forall|i: int| 0 <= i < a.len() implies #[trigger] a[i] == Some(b[i]) by {
            assert(a[i] == items[i]);
        }
        lemma_string_items_all(a, b);
        assert(items.last() == items[items.len() - 1]);
        assert(b.push(xs.last()) =~= xs);
    } else {
        assert(xs =~= Seq::<Seq<char>>::empty());
    }
}

/// What YAML reading must give of a project's frontmatter for the project to read back: of a
/// text that is a written document, that it parses and that each key the project reads
/// finds what was written.
pub open spec fn frontmatter_read(y: Seq<char>) -> bool {
    forall|d: Seq<(Seq<char>, YamlItem)>|
        #[trigger] written_doc(d, y) ==> {
            &&& yaml_parses(y)
            &&& yaml_lookup(y, "name"@) == doc_lookup(d, "name"@)
            &&& yaml_lookup(y, "status"@) == doc_lookup(d, "status"@)
            &&& yaml_lookup(y, "priority"@) == doc_lookup(d, "priority"@)
            &&& yaml_lookup(y, "tags"@) == doc_lookup(d, "tags"@)
            &&& yaml_lookup(y, "created"@) == doc_lookup(d, "created"@)
            &&& yaml_lookup(y, "target"@) == doc_lookup(d, "target"@)
            &&& yaml_lookup(y, "active_issue"@) == doc_lookup(d, "active_issue"@)
        }
}

/// A project whose markdown reads back as the same project: well-formed (`project_ok`), its
/// frontmatter a document that YAML reads as written (`doc_ok`: name and tags written as
/// scalars that read as strings, keys once, sizes within the reader's limits), its focus
/// trimmed, its dates real dates, and its slug the one reading gives (`slug` where given,
/// else the slug of its name).
pub open spec fn project_reads_back(p: ProjectView, slug: Option<Seq<char>>) -> bool {
    &&& project_ok(p)
    &&& doc_ok(frontmatter_doc(p))
    &&& p.current_focus == trim(p.current_focus)
    &&& p.created.wf()
    &&& (p.target matches Some(t) ==> t.wf())
    &&& match slug {
        Some(s) => s == p.slug,
        None => p.slug == slug_of(p.name),
    }
}

/// Reading the markdown of such a project gives the project back, where YAML reads its
/// frontmatter as written.
pub(crate) proof fn lemma_read_written_project(p: ProjectView, slug: Option<Seq<char>>, today: Date)
    requires
        project_reads_back(p, slug),
        frontmatter_read(project_yaml(p)),
    ensures
        parse_project(project_text(p), slug, today) == Some(Ok::<ProjectView, Seq<char>>(p)),
{
    reveal_strlit("created");
    reveal_strlit("name");
    reveal_strlit("priority");
    reveal_strlit("status");
    reveal_strlit("tags");
    reveal_strlit("target");
    reveal_strlit("active_issue");
    lemma_ascii_digits_match();
    lemma_split_project(p);
    lemma_read_body_round_trip(p);
    lemma_frontmatter_doc_lines(p);
    let d = frontmatter_doc(p);
    let y = project_yaml(p);
    assert(written_doc(d, y));
    assert(yaml_parses(y));
    assert(d[0].0 == "created"@);
    assert(d[1].0 == "name"@);
    assert(d[2].0 == "priority"@);
    assert(d[3].0 == "status"@);
    assert(d[4].0 == "tags"@);
    lemma_doc_lookup_at(d, 0);
    lemma_doc_lookup_at(d, 1);
    lemma_doc_lookup_at(d, 2);
    lemma_doc_lookup_at(d, 3);
    lemma_doc_lookup_at(d, 4);
    let t_at: int = 5;
    let a_at: int = if p.target is Some { 6 } else { 5 };
    match p.target {
        Some(t) => {
            assert(d[t_at].0 == "target"@);
            lemma_doc_lookup_at(d, t_at);
            lemma_date_read_back(t);
        },
        None => {
            assert forall|j: int| 0 <= j < d.len() implies #[trigger] d[j].0 != "target"@ by {
                assert("status"@[0] != "target"@[0]);
            }
            lemma_doc_lookup_absent(d, "target"@);
        },
    }
    match p.active_issue {
        Some(n) => {
            assert(d[a_at].0 == "active_issue"@);
            lemma_doc_lookup_at(d, a_at);
        },
        None => {
            assert forall|j: int| 0 <= j < d.len() implies #[trigger] d[j].0 != "active_issue"@ by {}
            lemma_doc_lookup_absent(d, "active_issue"@);
        },
    }
    lemma_written_scalar_text(p.name);
    lemma_status_parse_name(p.status);
    lemma_priority_parse_name(p.priority);
    lemma_date_read_back(p.created);
    let ws = Seq::new(p.tags.len(), |i: int| written_scalar(p.tags[i]));
    let items = Seq::new(ws.len(), |i: int| Some(scalar_value(ws[i])));
    assert forall|i: int| 0 <= i < items.len() implies #[trigger] items[i] == Some(p.tags[i]) by {
        lemma_written_scalar_text(p.tags[i]);
    }
    lemma_string_items_all(items, p.tags);
    let q = project_of(y, body_view(p), slug, today);
    assert(q.name == p.name);
    assert(q.slug == p.slug);
    assert(q.status == p.status);
    assert(q.priority == p.priority);
    assert(q.tags == p.tags);
    assert(q.created == p.created);
    assert(q.target == p.target);
    assert(q.active_issue == p.active_issue);
    assert(q == p);
}

// ── Projects with plain names and tags ───────────────────────────────

/// A word of ASCII letters, digits, `_` and `-` that starts with a letter, at most 4096
/// characters long.
pub open spec fn plain_word(s: Seq<char>) -> bool {
    &&& 1 <= s.len() <= 4096
    &&& ascii_letter(s[0])
    &&& forall|i: int|
        0 <= i < s.len() ==> ascii_letter(#[trigger] s[i]) || is_digit(s[i]) || s[i] == '_' || s[i]
            == '-'
}

/// A text that starts with an ASCII letter and is no `inf`, `infinity` or `nan` is no
/// float.
proof fn lemma_letter_not_float(t: Seq<char>)
    requires
        t.len() > 0,
        ascii_letter(t[0]),
        (t.len() == 3 || t.len() == 8) ==> ascii_lower_char(t[0]) != 'i' && ascii_lower_char(t[0])
            != 'n',
    ensures
        !float_syntax(t),
{
    reveal_strlit("inf");
    reveal_strlit("infinity");
    reveal_strlit("nan");
    assert(!is_digit(t[0]));
    assert(digit_run(t) == 0);
    assert(t.skip(0) =~= t);
    assert(!number_syntax(t));
    let l = ascii_lower_seq(t);
    assert(l.len() == t.len());
    if t.len() == 3 || t.len() == 8 {
        assert(l[0] == ascii_lower_char(t[0]));
        assert(l != "inf"@ && l != "nan"@ && l != "infinity"@) by {
            if t.len() == 3 {
                assert(l[0] != "inf"@[0]);
                assert(l[0] != "nan"@[0]);
            } else {
                assert(l[0] != "infinity"@[0]);
            }
        }
    }
}

/// A plain word is written as a scalar that reads back as itself, at most two characters
/// longer than the word.
proof fn lemma_plain_word_scalar(s: Seq<char>)
    requires
        plain_word(s),
    ensures
        scalar_ok(written_scalar(s)),
        yaml_scalar(s).len() <= s.len() + 2,
        lacks(s, '\n'),
{
    lemma_written_scalar_text(s);
    assert forall|i: int| 0 <= i < s.len() implies #[trigger] s[i] != '\'' by {}
    lemma_no_quote_double(s);
    match written_scalar(s) {
        YamlScalar::Quoted(t) => {
            assert forall|i: int| 0 <= i < t.len() implies yaml_printable(#[trigger] t[i]) by {}
        },
        YamlScalar::Plain(t) => {
            assert(t.last() == t[t.len() - 1]);
            assert(yaml_plain(t));
        },
    }
}

/// A lower-case word of three to eight letters whose first letter starts no boolean, null
/// or float word reads back as itself when written plain.
proof fn lemma_name_scalar_ok(t: Seq<char>)
    requires
        3 <= t.len() <= 8,
        forall|i: int| 0 <= i < t.len() ==> 'a' <= #[trigger] t[i] && t[i] <= 'z',
        t[0] != 'y' && t[0] != 'o' && t[0] != 'i' && t[0] != 'n' && t[0] != 't' && t[0] != 'f',
    ensures
        scalar_ok(YamlScalar::Plain(t)),
{
    reveal_strlit("true");
    reveal_strlit("false");
    reveal_strlit("null");
    reveal_strlit("yes");
    reveal_strlit("no");
    reveal_strlit("on");
    reveal_strlit("off");
    lemma_letter_not_float(t);
    assert(t.last() == t[t.len() - 1]);
    assert(!crate::text::lowers_to(t[0], 't'));
    assert(!crate::text::lowers_to(t[0], 'f'));
    assert(!crate::text::lowers_to(t[0], 'n'));
    assert(!crate::text::lowers_to(t[0], 'y'));
    assert(!crate::text::lowers_to(t[0], 'o'));
    assert(not_keyword(t));
}

proof fn lemma_names_ok(st: Status, pr: Priority)
    ensures
        scalar_ok(YamlScalar::Plain(status_name(st))),
        scalar_ok(YamlScalar::Plain(priority_name(pr))),
        status_name(st).len() <= 7,
        priority_name(pr).len() <= 6,
{
    reveal_strlit("active");
    reveal_strlit("blocked");
    reveal_strlit("pending");
    reveal_strlit("parked");
    reveal_strlit("done");
    reveal_strlit("high");
    reveal_strlit("medium");
    reveal_strlit("low");
    lemma_name_scalar_ok(status_name(st));
    lemma_name_scalar_ok(priority_name(pr));
}

proof fn lemma_key_ok(k: Seq<char>)
    requires
        4 <= k.len() <= 12,
        forall|i: int| 0 <= i < k.len() ==> ('a' <= #[trigger] k[i] && k[i] <= 'z') || k[i] == '_',
        'a' <= k[0] && k[0] <= 'z',
        k[0] != 'i' && k[0] != 'n' && k[0] != 't' && k[0] != 'f',
    ensures
        key_ok(k),
{
    reveal_strlit("true");
    reveal_strlit("false");
    reveal_strlit("null");
    lemma_letter_not_float(k);
    assert(k[0] != "null"@[0] && k[0] != "true"@[0] && k[0] != "false"@[0]);
}

proof fn lemma_keys_ok()
    ensures
        key_ok("created"@),
        key_ok("name"@),
        key_ok("priority"@),
        key_ok("status"@),
        key_ok("tags"@),
        key_ok("target"@),
        key_ok("active_issue"@),
{
    reveal_strlit("created");
    reveal_strlit("name");
    reveal_strlit("priority");
    reveal_strlit("status");
    reveal_strlit("tags");
    reveal_strlit("target");
    reveal_strlit("active_issue");
    reveal_strlit("true");
    reveal_strlit("false");
    reveal_strlit("null");
    lemma_key_ok("created"@);
    lemma_key_ok("priority"@);
    lemma_key_ok("status"@);
    lemma_key_ok("active_issue"@);
    lemma_letter_not_float("name"@);
    lemma_letter_not_float("tags"@);
    lemma_letter_not_float("target"@);
    assert("name"@[1] != "null"@[1]);
    assert("tags"@[0] != "null"@[0] && "tags"@[1] != "true"@[1]);
    assert("target"@[0] != "null"@[0]);
}

/// Lines of at most `b` characters, joined by newlines, make at most `n * (b + 1)` characters.
proof fn lemma_join_len(ls: Seq<Seq<char>>, b: nat)
    requires
        forall|i: int| 0 <= i < ls.len() ==> (#[trigger] ls[i]).len() <= b,
    ensures
        join(ls, "\n"@).len() <= ls.len() * (b + 1),
    decreases ls.len(),
{
    reveal_strlit("\n");
    if ls.len() > 1 {
        let dl = ls.drop_last();
        assert forall|i: int| 0 <= i < dl.len() implies (#[trigger] dl[i]).len() <= b by {
            assert(dl[i] == ls[i]);
        }
        lemma_join_len(dl, b);
        assert(ls.last() == ls[ls.len() - 1]);
        assert(join(ls, "\n"@).len() == join(dl, "\n"@).len() + 1 + ls.last().len());
        assert(dl.len() * (b + 1) + 1 + b == ls.len() * (b + 1)) by (nonlinear_arith)
            requires
                dl.len() + 1 == ls.len(),
        ;
    } else if ls.len() == 1 {
        assert(ls[0].len() <= b);
    }
}

proof fn lemma_date_text_len(d: Date)
    requires
        d.wf(),
    ensures
        date_text(d).len() <= 13,
{
    let y: int = d.year as int;
    let n: nat = (if y < 0 { -y } else { y }) as nat;
    reveal_with_fuel(crate::person_laws::ten_pow, 7);
    crate::person_laws::lemma_dec_len(n, 6);
    crate::date::lemma_dec_small(d.month as nat);
    crate::date::lemma_dec_small(d.day as nat);
}

/// A project with a plain-word name and at most a thousand plain-word tags, a trimmed focus,
/// real dates, the slug of its name, and a body its markdown describes (`project_ok`) reads
/// back as itself from its markdown (`project_reads_back`): with `Project::from_markdown`,
/// reading its markdown gives it back, and writing it again gives the same text.
pub proof fn lemma_plain_projects_read_back(p: ProjectView)
    requires
        project_ok(p),
        plain_word(p.name),
        p.tags.len() <= 1000,
        forall|i: int| 0 <= i < p.tags.len() ==> plain_word(#[trigger] p.tags[i]),
        p.current_focus == trim(p.current_focus),
        p.created.wf(),
        p.target matches Some(t) ==> t.wf(),
        p.slug == slug_of(p.name),
    ensures
        project_reads_back(p, None),
{
    reveal_strlit("created");
    reveal_strlit("name");
    reveal_strlit("priority");
    reveal_strlit("status");
    reveal_strlit("tags");
    reveal_strlit("target");
    reveal_strlit("active_issue");
    reveal_strlit("created: '");
    reveal_strlit("'");
    reveal_strlit("name: ");
    reveal_strlit("priority: ");
    reveal_strlit("status: ");
    reveal_strlit("tags: []");
    reveal_strlit("tags:");
    reveal_strlit("- ");
    reveal_strlit("target: '");
    reveal_strlit("active_issue: ");
    let d = frontmatter_doc(p);
    lemma_keys_ok();
    lemma_names_ok(p.status, p.priority);
    lemma_plain_word_scalar(p.name);
    lemma_date_text_no_quote(p.created);
    lemma_date_text_len(p.created);
    // The items read back.
    assert forall|i: int| 0 <= i < d.len() implies key_ok(#[trigger] d[i].0) && item_ok(d[i].1) by {
        if i == 0 {
            assert forall|k: int| 0 <= k < date_text(p.created).len() implies yaml_printable(
                #[trigger] date_text(p.created)[k],
            ) by {
                assert(is_digit(date_text(p.created)[k]) || date_text(p.created)[k] == '-'
                    || date_text(p.created)[k] == '+');
            }
        } else if i == 4 {
            let ws = Seq::new(p.tags.len(), |k: int| written_scalar(p.tags[k]));
            assert forall|k: int| 0 <= k < ws.len() implies scalar_ok(#[trigger] ws[k]) by {
                lemma_plain_word_scalar(p.tags[k]);
            }
        } else if i == 5 && p.target is Some {
            let t = p.target->0;
            lemma_date_text_no_quote(t);
            assert forall|k: int| 0 <= k < date_text(t).len() implies yaml_printable(
                #[trigger] date_text(t)[k],
            ) by {
                assert(is_digit(date_text(t)[k]) || date_text(t)[k] == '-' || date_text(t)[k] == '+');
            }
        }
    }
    // Each key once.
    assert forall|i: int, j: int| 0 <= i < j < d.len() implies #[trigger] d[i].0 != #[trigger] d[j].0 by {
        assert(d[i].0[0] != d[j].0[0] || d[i].0.len() != d[j].0.len() || d[i].0[1] != d[j].0[1]
            || d[i].0[2] != d[j].0[2]);
    }
    // The text is short enough.
    lemma_frontmatter_doc_lines(p);
    let fl = frontmatter_lines(p);
    lemma_terminated_join(fl);
    assert(fl.len() <= 1007);
    assert forall|i: int| 0 <= i < fl.len() implies (#[trigger] fl[i]).len() <= 4200 by {
        if p.tags.len() > 0 && 5 <= i < 5 + p.tags.len() {
            lemma_plain_word_scalar(p.tags[i - 5]);
        }
        if let Some(t) = p.target {
            lemma_date_text_len(t);
        }
        if let Some(n) = p.active_issue {
            reveal_with_fuel(crate::person_laws::ten_pow, 11);
            crate::person_laws::lemma_dec_len(n as nat, 10);
        }
    }
    lemma_join_len(fl, 4200);
    assert(fl.len() * 4201 <= 1007 * 4201) by (nonlinear_arith)
        requires
            fl.len() <= 1007,
    ;
    assert(doc_ok(d));
}

} // verus!
