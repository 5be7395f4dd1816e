//! ADF (Atlassian Document Format) conversion utilities.
//!
//! JIRA Cloud v3 uses ADF for rich text fields (descriptions, comments).
//! These functions convert between ADF documents and plain text.
use vstd::prelude::*;
use crate::json::{content, content_of, get, get_of, lemma_content_decreases, member, Json};
use crate::text::{
    dec, join, lacks, lemma_chars_deep_view, lines, lines_of, push_chars, push_dec, push_joined,
    push_str, push_string, split_on, str_chars, string_from_chars, trim,
};

verus! {

broadcast use vstd::string::group_string_axioms;

// ── Reading nodes ────────────────────────────────────────────────────

pub open spec fn str_of(j: Option<Json>) -> Option<Seq<char>> {
    match j {
        Some(Json::Str(s)) => Some(s@),
        _ => None,
    }
}

pub open spec fn u64_of(j: Option<Json>) -> Option<u64> {
    match j {
        Some(Json::Number(Some(n), _)) => Some(n),
        _ => None,
    }
}

/// `node.get("attrs").get(key)`.
pub open spec fn attr(node: Json, key: Seq<char>) -> Option<Json> {
    match get(node, "attrs"@) {
        Some(a) => get(a, key),
        None => None,
    }
}

pub open spec fn node_type(node: Json) -> Option<Seq<char>> {
    str_of(get(node, "type"@))
}

/// The heading level: `attrs.level`, or 1.
pub open spec fn heading_level(node: Json) -> nat {
    match u64_of(attr(node, "level"@)) {
        Some(l) => l as nat,
        None => 1,
    }
}

/// The `href` of the first link mark that has one.
pub open spec fn first_href(marks: Seq<Json>) -> Option<Seq<char>>
    decreases marks.len(),
{
    if marks.len() == 0 {
        None
    } else if str_of(get(marks[0], "type"@)) == Some("link"@) && str_of(
        attr(marks[0], "href"@),
    ) is Some {
        str_of(attr(marks[0], "href"@))
    } else {
        first_href(marks.drop_first())
    }
}

pub open spec fn marks_of(node: Json) -> Seq<Json> {
    match get(node, "marks"@) {
        Some(Json::Array(v)) => v@,
        _ => Seq::empty(),
    }
}

pub open spec fn concat(ps: Seq<Seq<char>>) -> Seq<char>
    decreases ps.len(),
{
    if ps.len() == 0 {
        Seq::empty()
    } else {
        concat(ps.drop_last()) + ps.last()
    }
}

pub open spec fn nonempty(ps: Seq<Seq<char>>) -> Seq<Seq<char>>
    decreases ps.len(),
{
    if ps.len() == 0 {
        Seq::empty()
    } else if ps.last().len() > 0 {
        nonempty(ps.drop_last()).push(ps.last())
    } else {
        nonempty(ps.drop_last())
    }
}

pub open spec fn prefixed(ps: Seq<Seq<char>>, p: Seq<char>) -> Seq<Seq<char>> {
    ps.map_values(|s: Seq<char>| p + s)
}

pub open spec fn numbered(ps: Seq<Seq<char>>) -> Seq<Seq<char>> {
    Seq::new(ps.len(), |i: int| dec((i + 1) as nat) + ". "@ + ps[i])
}

// ── ADF to text ──────────────────────────────────────────────────────

/// The text of the first `n` children of `node`.
pub open spec fn child_texts(node: Json, n: nat) -> Seq<Seq<char>>
    decreases node, 0nat, n,
{
    if n == 0 || n > content(node).len() {
        Seq::empty()
    } else {
        proof {
            lemma_content_decreases(node, n - 1);
        }
        child_texts(node, (n - 1) as nat).push(adf_text(content(node)[n - 1]))
    }
}

/// The texts of the first `n` rows of a table: each row's cells joined by spaces.
pub open spec fn row_texts(node: Json, n: nat) -> Seq<Seq<char>>
    decreases node, 0nat, n,
{
    if n == 0 || n > content(node).len() {
        Seq::empty()
    } else {
        let row = content(node)[n - 1];
        proof {
            lemma_content_decreases(node, n - 1);
        }
        row_texts(node, (n - 1) as nat).push(
            join(child_texts(row, content(row).len()), " "@),
        )
    }
}

pub open spec fn texts(node: Json) -> Seq<Seq<char>>
    decreases node, 0nat, content(node).len() + 1,
{
    child_texts(node, content(node).len())
}

/// The plain text of an ADF node: paragraphs, headings, lists, code blocks, quotes,
/// links, mentions, emoji, rules and tables each have their form; a node of another
/// type gives the text of its children, and a node without a type gives nothing.
pub open spec fn adf_text(node: Json) -> Seq<char>
    decreases node, 1nat, 0nat,
{
    match node_type(node) {
        None => Seq::empty(),
        Some(t) => if t == "doc"@ {
            join(nonempty(texts(node)), "\n\n"@)
        } else if t == "paragraph"@ || t == "listItem"@ {
            concat(texts(node))
        } else if t == "heading"@ {
            Seq::new(heading_level(node), |i: int| '#') + " "@ + concat(texts(node))
        } else if t == "bulletList"@ {
            join(prefixed(texts(node), "- "@), "\n"@)
        } else if t == "orderedList"@ {
            join(numbered(texts(node)), "\n"@)
        } else if t == "codeBlock"@ {
            join(prefixed(lines(concat(texts(node))), "    "@), "\n"@)
        } else if t == "blockquote"@ {
            join(prefixed(lines(join(texts(node), "\n"@)), "> "@), "\n"@)
        } else if t == "text"@ {
            let text = match str_of(get(node, "text"@)) {
                Some(s) => s,
                None => Seq::empty(),
            };
            match first_href(marks_of(node)) {
                Some(h) => text + " ("@ + h + ")"@,
                None => text,
            }
        } else if t == "hardBreak"@ {
            "\n"@
        } else if t == "mention"@ {
            match str_of(attr(node, "text"@)) {
                Some(s) => s,
                None => "@unknown"@,
            }
        } else if t == "inlineCard"@ {
            match str_of(attr(node, "url"@)) {
                Some(s) => s,
                None => Seq::empty(),
            }
        } else if t == "emoji"@ {
            match str_of(attr(node, "shortName"@)) {
                Some(s) => s,
                None => Seq::empty(),
            }
        } else if t == "rule"@ {
            "---"@
        } else if t == "table"@ {
            join(row_texts(node, content(node).len()), "\n"@)
        } else {
            concat(texts(node))
        },
    }
}

/// Every heading level in the first `n` children's trees fits a string's capacity.
pub open spec fn children_fit(node: Json, n: nat) -> bool
    decreases node, 0nat, n,
{
    if n == 0 || n > content(node).len() {
        true
    } else {
        proof {
            lemma_content_decreases(node, n - 1);
        }
        children_fit(node, (n - 1) as nat) && adf_fits(content(node)[n - 1])
    }
}

/// Every heading level in the tree is at most `isize::MAX` (`"#".repeat(level)` panics on
/// a larger one).
pub open spec fn adf_fits(node: Json) -> bool
    decreases node, 1nat, 0nat,
{
    (node_type(node) == Some("heading"@) ==> heading_level(node) <= isize::MAX) && children_fit(
        node,
        content(node).len(),
    )
}


// ── Executable conversion ────────────────────────────────────────────

proof fn lemma_children_fit(node: Json, n: nat, k: int)
    requires
        children_fit(node, n),
        0 <= k < n <= content(node).len(),
    ensures
        adf_fits(content(node)[k]),
    decreases n,
{
    if k < n - 1 {
        lemma_children_fit(node, (n - 1) as nat, k);
    }
}

fn str_member(j: &Json, key: &str) -> (r: Option<Vec<char>>)
    ensures
        match r {
            Some(v) => str_of(get(*j, key@)) == Some(v@),
            None => str_of(get(*j, key@)) is None,
        },
{
    match get_of(j, key) {
        Some(Json::Str(s)) => Some(str_chars(s.as_str())),
        _ => None,
    }
}

fn attr_of<'a>(j: &'a Json, key: &str) -> (r: Option<&'a Json>)
    ensures
        match r {
            Some(x) => attr(*j, key@) == Some(*x),
            None => attr(*j, key@) is None,
        },
{
    proof {
        reveal_strlit("attrs");
    }
    match get_of(j, "attrs") {
        Some(a) => get_of(a, key),
        None => None,
    }
}

fn str_attr(j: &Json, key: &str) -> (r: Option<Vec<char>>)
    ensures
        match r {
            Some(v) => str_of(attr(*j, key@)) == Some(v@),
            None => str_of(attr(*j, key@)) is None,
        },
{
    match attr_of(j, key) {
        Some(Json::Str(s)) => Some(str_chars(s.as_str())),
        _ => None,
    }
}

fn lit_is(v: &Vec<char>, lit: &str) -> (b: bool)
    ensures
        b == (v@ == lit@),
{
    crate::yaml::eq_chars(v, &str_chars(lit))
}

fn first_href_of(marks: &Vec<Json>) -> (r: Option<Vec<char>>)
    ensures
        match r {
            Some(v) => first_href(marks@) == Some(v@),
            None => first_href(marks@) is None,
        },
{
    let mut i: usize = 0;
    assert(marks@.skip(0) =~= marks@);
    while i < marks.len()
        invariant
            i <= marks.len(),
            first_href(marks@) == first_href(marks@.skip(i as int)),
        decreases marks.len() - i,
    {
        assert(marks@.skip(i as int).drop_first() =~= marks@.skip(i + 1));
        assert(marks@.skip(i as int)[0] == marks@[i as int]);
        let m = &marks[i];
        let is_link = match str_member(m, "type") {
            Some(t) => lit_is(&t, "link"),
            None => false,
        };
        if is_link {
            match str_attr(m, "href") {
                Some(h) => {
                    return Some(h);
                },
                None => {},
            }
        }
        i = i + 1;
    }
    None
}

fn concat_of(ps: &Vec<Vec<char>>) -> (r: Vec<char>)
    ensures
        r@ == concat(ps.deep_view()),
{
    let mut out: Vec<char> = Vec::new();
    let mut i: usize = 0;
    while i < ps.len()
        invariant
            i <= ps.len(),
            out@ == concat(ps.deep_view().subrange(0, i as int)),
        decreases ps.len() - i,
    {
        assert(ps.deep_view().subrange(0, i + 1).drop_last() =~= ps.deep_view().subrange(0, i as int));
        proof {
            lemma_chars_deep_view(&ps[i as int]);
        }
        push_chars(&mut out, &ps[i]);
        i = i + 1;
    }
    assert(ps.deep_view().subrange(0, i as int) =~= ps.deep_view());
    out
}

fn joined(ps: &Vec<Vec<char>>, sep: &str) -> (r: Vec<char>)
    ensures
        r@ == join(ps.deep_view(), sep@),
{
    let mut out: Vec<char> = Vec::new();
    push_joined(&mut out, ps, &str_chars(sep));
    assert(out@ =~= join(ps.deep_view(), sep@));
    out
}

fn push_part(ps: &mut Vec<Vec<char>>, l: Vec<char>)
    ensures
        final(ps).deep_view() == old(ps).deep_view().push(l@),
{
    proof {
        lemma_chars_deep_view(&l);
    }
    let ghost before = ps.deep_view();
    ps.push(l);
    assert(ps.deep_view() =~= before.push(l@));
}

fn prefixed_of(ps: &Vec<Vec<char>>, p: &str) -> (r: Vec<Vec<char>>)
    ensures
        r.deep_view() == prefixed(ps.deep_view(), p@),
{
    let mut out: Vec<Vec<char>> = Vec::new();
    let mut i: usize = 0;
    while i < ps.len()
        invariant
            i <= ps.len(),
            out.deep_view() == prefixed(ps.deep_view().subrange(0, i as int), p@),
        decreases ps.len() - i,
    {
        proof {
            lemma_chars_deep_view(&ps[i as int]);
        }
        let mut l: Vec<char> = Vec::new();
        push_str(&mut l, p);
        push_chars(&mut l, &ps[i]);
        push_part(&mut out, l);
        i = i + 1;
        assert(out.deep_view() =~= prefixed(ps.deep_view().subrange(0, i as int), p@));
    }
    assert(ps.deep_view().subrange(0, i as int) =~= ps.deep_view());
    out
}

fn numbered_of(ps: &Vec<Vec<char>>) -> (r: Vec<Vec<char>>)
    ensures
        r.deep_view() == numbered(ps.deep_view()),
{
    let mut out: Vec<Vec<char>> = Vec::new();
    let mut i: usize = 0;
    while i < ps.len()
        invariant
            i <= ps.len(),
            out.deep_view() == numbered(ps.deep_view().subrange(0, i as int)),
        decreases ps.len() - i,
    {
        proof {
            lemma_chars_deep_view(&ps[i as int]);
        }
        let mut l: Vec<char> = Vec::new();
        push_dec(&mut l, (i as u64) + 1);
        push_str(&mut l, ". ");
        push_chars(&mut l, &ps[i]);
        push_part(&mut out, l);
        i = i + 1;
        assert(out.deep_view() =~= numbered(ps.deep_view().subrange(0, i as int)));
    }
    assert(ps.deep_view().subrange(0, i as int) =~= ps.deep_view());
    out
}

fn nonempty_of(ps: &Vec<Vec<char>>) -> (r: Vec<Vec<char>>)
    ensures
        r.deep_view() == nonempty(ps.deep_view()),
{
    let mut out: Vec<Vec<char>> = Vec::new();
    let mut i: usize = 0;
    while i < ps.len()
        invariant
            i <= ps.len(),
            out.deep_view() == nonempty(ps.deep_view().subrange(0, i as int)),
        decreases ps.len() - i,
    {
        assert(ps.deep_view().subrange(0, i + 1).drop_last() =~= ps.deep_view().subrange(0, i as int));
        proof {
            lemma_chars_deep_view(&ps[i as int]);
        }
        if ps[i].len() > 0 {
            push_part(&mut out, crate::text::slice(&ps[i], 0, ps[i].len()));
            assert(ps[i as int]@.subrange(0, ps[i as int]@.len() as int) =~= ps[i as int]@);
        }
        i = i + 1;
    }
    assert(ps.deep_view().subrange(0, i as int) =~= ps.deep_view());
    out
}

/// The texts of the children of `node`.
fn texts_of(node: &Json) -> (r: Vec<Vec<char>>)
    requires
        adf_fits(*node),
    ensures
        r.deep_view() == texts(*node),
    decreases *node, 0nat,
{
    let mut out: Vec<Vec<char>> = Vec::new();
    match content_of(node) {
        None => {
            assert(out.deep_view() =~= texts(*node));
        },
        Some(kids) => {
            let mut k: usize = 0;
            while k < kids.len()
                invariant
                    k <= kids.len(),
                    kids@ == content(*node),
                    adf_fits(*node),
                    out.deep_view() == child_texts(*node, k as nat),
                decreases kids.len() - k,
            {
                proof {
                    lemma_content_decreases(*node, k as int);
                    lemma_children_fit(*node, content(*node).len(), k as int);
                }
                let t = adf_to_text_chars(&kids[k]);
                push_part(&mut out, t);
                k = k + 1;
            }
        },
    }
    out
}

/// The row texts of a table node.
fn rows_of(node: &Json) -> (r: Vec<Vec<char>>)
    requires
        adf_fits(*node),
    ensures
        r.deep_view() == row_texts(*node, content(*node).len()),
    decreases *node, 0nat,
{
    let mut out: Vec<Vec<char>> = Vec::new();
    match content_of(node) {
        None => {
            assert(out.deep_view() =~= row_texts(*node, content(*node).len()));
        },
        Some(rows) => {
            let mut k: usize = 0;
            while k < rows.len()
                invariant
                    k <= rows.len(),
                    rows@ == content(*node),
                    adf_fits(*node),
                    out.deep_view() == row_texts(*node, k as nat),
                decreases rows.len() - k,
            {
                proof {
                    lemma_content_decreases(*node, k as int);
                    lemma_children_fit(*node, content(*node).len(), k as int);
                }
                let cells = texts_of(&rows[k]);
                let line = joined(&cells, " ");
                push_part(&mut out, line);
                k = k + 1;
            }
        },
    }
    out
}

fn adf_to_text_chars(node: &Json) -> (r: Vec<char>)
    requires
        adf_fits(*node),
    ensures
        r@ == adf_text(*node),
    decreases *node, 1nat,
{
    let t = match str_member(node, "type") {
        Some(t) => t,
        None => {
            return Vec::new();
        },
    };
    if lit_is(&t, "doc") {
        let ts = texts_of(node);
        let ne = nonempty_of(&ts);
        joined(&ne, "\n\n")
    } else if lit_is(&t, "paragraph") || lit_is(&t, "listItem") {
        let ts = texts_of(node);
        concat_of(&ts)
    } else if lit_is(&t, "heading") {
        let level: u64 = match attr_of(node, "level") {
            Some(Json::Number(Some(l), _)) => *l,
            _ => 1,
        };
        let mut out: Vec<char> = Vec::new();
        let mut i: u64 = 0;
        while i < level
            invariant
                i <= level,
                out@ == Seq::new(i as nat, |k: int| '#'),
            decreases level - i,
        {
            out.push('#');
            i = i + 1;
            assert(out@ =~= Seq::new(i as nat, |k: int| '#'));
        }
        out.push(' ');
        let ts = texts_of(node);
        let c = concat_of(&ts);
        push_chars(&mut out, &c);
        proof {
            reveal_strlit(" ");
        }
        assert(out@ =~= Seq::new(heading_level(*node), |k: int| '#') + " "@ + concat(texts(*node)));
        out
    } else if lit_is(&t, "bulletList") {
        let ts = texts_of(node);
        joined(&prefixed_of(&ts, "- "), "\n")
    } else if lit_is(&t, "orderedList") {
        let ts = texts_of(node);
        joined(&numbered_of(&ts), "\n")
    } else if lit_is(&t, "codeBlock") {
        let ts = texts_of(node);
        let c = concat_of(&ts);
        let ls = lines_of(&c);
        joined(&prefixed_of(&ls, "    "), "\n")
    } else if lit_is(&t, "blockquote") {
        let ts = texts_of(node);
        let c = joined(&ts, "\n");
        let ls = lines_of(&c);
        joined(&prefixed_of(&ls, "> "), "\n")
    } else if lit_is(&t, "text") {
        let mut out = match str_member(node, "text") {
            Some(s) => s,
            None => Vec::new(),
        };
        let marks = match get_of(node, "marks") {
            Some(Json::Array(v)) => first_href_of(v),
            _ => {
                assert(marks_of(*node) =~= Seq::<Json>::empty());
                None
            },
        };
        match marks {
            Some(h) => {
                push_str(&mut out, " (");
                push_chars(&mut out, &h);
                push_str(&mut out, ")");
            },
            None => {},
        }
        out
    } else if lit_is(&t, "hardBreak") {
        str_chars("\n")
    } else if lit_is(&t, "mention") {
        match str_attr(node, "text") {
            Some(s) => s,
            None => str_chars("@unknown"),
        }
    } else if lit_is(&t, "inlineCard") {
        match str_attr(node, "url") {
            Some(s) => s,
            None => Vec::new(),
        }
    } else if lit_is(&t, "emoji") {
        match str_attr(node, "shortName") {
            Some(s) => s,
            None => Vec::new(),
        }
    } else if lit_is(&t, "rule") {
        str_chars("---")
    } else if lit_is(&t, "table") {
        let rs = rows_of(node);
        joined(&rs, "\n")
    } else {
        let ts = texts_of(node);
        concat_of(&ts)
    }
}

/// Recursively convert an ADF node to plain text.
pub fn adf_to_text(node: &Json) -> (r: String)
    requires
        adf_fits(*node),
    ensures
        r@ == adf_text(*node),
{
    string_from_chars(&adf_to_text_chars(node))
}


// ── Text to ADF ──────────────────────────────────────────────────────

/// `s.split("\n\n")`: the pieces between blank-line separators, taken left to right.
pub open spec fn split_blank(s: Seq<char>) -> Seq<Seq<char>>
    decreases s.len(),
{
    match crate::text::find_from(s, 0, "\n\n"@) {
        Some(i) => if 0 <= i && i + 2 <= s.len() {
            seq![s.subrange(0, i)] + split_blank(s.skip(i + 2))
        } else {
            seq![s]
        },
        None => seq![s],
    }
}

/// The trimmed pieces that are not blank.
pub open spec fn trimmed_nonblank(ps: Seq<Seq<char>>) -> Seq<Seq<char>>
    decreases ps.len(),
{
    if ps.len() == 0 {
        Seq::empty()
    } else if trim(ps.last()).len() > 0 {
        trimmed_nonblank(ps.drop_last()).push(trim(ps.last()))
    } else {
        trimmed_nonblank(ps.drop_last())
    }
}

/// The paragraph texts of `text`: its blank-line separated pieces, trimmed, blank ones
/// left out; one empty paragraph where there are none.
pub open spec fn paragraphs(text: Seq<char>) -> Seq<Seq<char>> {
    let ps = trimmed_nonblank(split_blank(text));
    if ps.len() == 0 {
        seq![Seq::<char>::empty()]
    } else {
        ps
    }
}

pub open spec fn is_str(j: Json, s: Seq<char>) -> bool {
    j matches Json::Str(x) && x@ == s
}

/// `{"type": "text", "text": t}`.
pub open spec fn is_text_node(j: Json, t: Seq<char>) -> bool {
    &&& j matches Json::Object(fs)
    &&& fs@.len() == 2
    &&& fs@[0].0@ == "type"@ && is_str(fs@[0].1, "text"@)
    &&& fs@[1].0@ == "text"@ && is_str(fs@[1].1, t)
}

/// `{"type": "paragraph", "content": [text node t]}`.
pub open spec fn is_paragraph(j: Json, t: Seq<char>) -> bool {
    &&& j matches Json::Object(fs)
    &&& fs@.len() == 2
    &&& fs@[0].0@ == "type"@ && is_str(fs@[0].1, "paragraph"@)
    &&& fs@[1].0@ == "content"@
    &&& fs@[1].1 matches Json::Array(v)
    &&& v@.len() == 1
    &&& is_text_node(v@[0], t)
}

/// `{"version": 1, "type": "doc", "content": [paragraph per text]}`.
pub open spec fn is_doc(j: Json, ts: Seq<Seq<char>>) -> bool {
    &&& j matches Json::Object(fs)
    &&& fs@.len() == 3
    &&& fs@[0].0@ == "version"@
    &&& fs@[0].1 matches Json::Number(Some(n), t) && n == 1 && t@ == "1"@
    &&& fs@[1].0@ == "type"@ && is_str(fs@[1].1, "doc"@)
    &&& fs@[2].0@ == "content"@
    &&& fs@[2].1 matches Json::Array(v)
    &&& v@.len() == ts.len()
    &&& forall|i: int| 0 <= i < ts.len() ==> is_paragraph(#[trigger] v@[i], ts[i])
}

fn jstr(s: &str) -> (r: Json)
    ensures
        is_str(r, s@),
{
    Json::Str(string_from_chars(&str_chars(s)))
}

fn paragraph_of(t: &Vec<char>) -> (r: Json)
    ensures
        is_paragraph(r, t@),
{
    let text = Json::Object(
        vec![
            (string_from_chars(&str_chars("type")), jstr("text")),
            (string_from_chars(&str_chars("text")), Json::Str(string_from_chars(t))),
        ],
    );
    Json::Object(
        vec![
            (string_from_chars(&str_chars("type")), jstr("paragraph")),
            (string_from_chars(&str_chars("content")), Json::Array(vec![text])),
        ],
    )
}

fn doc_of(paras: &Vec<Vec<char>>) -> (r: Json)
    ensures
        is_doc(r, paras.deep_view()),
{
    let mut content: Vec<Json> = Vec::new();
    let mut i: usize = 0;
    while i < paras.len()
        invariant
            i <= paras.len(),
            content@.len() == i,
            forall|k: int| 0 <= k < i ==> is_paragraph(#[trigger] content@[k], paras.deep_view()[k]),
        decreases paras.len() - i,
    {
        proof {
            lemma_chars_deep_view(&paras[i as int]);
        }
        content.push(paragraph_of(&paras[i]));
        i = i + 1;
    }
    Json::Object(
        vec![
            (string_from_chars(&str_chars("version")), Json::Number(Some(1), string_from_chars(&str_chars("1")))),
            (string_from_chars(&str_chars("type")), jstr("doc")),
            (string_from_chars(&str_chars("content")), Json::Array(content)),
        ],
    )
}

fn split_blank_of(s: &Vec<char>) -> (r: Vec<Vec<char>>)
    ensures
        r.deep_view() == split_blank(s@),
{
    proof {
        reveal_strlit("\n\n");
    }
    let sep = str_chars("\n\n");
    let mut out: Vec<Vec<char>> = Vec::new();
    let mut pos: usize = 0;
    assert(s@.skip(0) =~= s@);
    assert(out.deep_view() + split_blank(s@.skip(0)) =~= split_blank(s@));
    loop
        invariant
            pos <= s.len(),
            sep@ == "\n\n"@,
            sep@.len() == 2,
            split_blank(s@) == out.deep_view() + split_blank(s@.skip(pos as int)),
        decreases s.len() - pos,
    {
        let ghost rest = s@.skip(pos as int);
        proof {
            crate::text::lemma_find_from_skip(s@, pos as int, 0, sep@);
            assert(rest.skip(0) =~= rest);
        }
        match crate::text::find_at(&s, pos, &sep) {
            Some(i) => {
                let ghost j = i - pos;
                proof {
                    crate::text::lemma_find_from_range(rest, 0, sep@);
                }
                assert(rest.subrange(0, j) =~= s@.subrange(pos as int, i as int));
                assert(rest.skip(j + 2) =~= s@.skip(i + 2));
                let ghost before = out.deep_view();
                push_part(&mut out, crate::text::slice(s, pos, i));
                assert(before + split_blank(rest) =~= out.deep_view() + split_blank(s@.skip(i + 2)));
                pos = i + 2;
            },
            None => {
                assert(rest =~= s@.subrange(pos as int, s@.len() as int));
                push_part(&mut out, crate::text::slice(s, pos, s.len()));
                return out;
            },
        }
    }
}

/// Convert plain text to an ADF document with multiple paragraphs.
///
/// Splits on double newlines (`\n\n`) to create separate paragraph nodes.
pub fn text_to_adf(text: &str) -> (r: Json)
    ensures
        is_doc(r, paragraphs(text@)),
{
    let s = str_chars(text);
    let pieces = split_blank_of(&s);
    let mut out: Vec<Vec<char>> = Vec::new();
    let mut k: usize = 0;
    while k < pieces.len()
        invariant
            k <= pieces.len(),
            out.deep_view() == trimmed_nonblank(pieces.deep_view().subrange(0, k as int)),
        decreases pieces.len() - k,
    {
        assert(pieces.deep_view().subrange(0, k + 1).drop_last() =~= pieces.deep_view().subrange(0, k as int));
        proof {
            lemma_chars_deep_view(&pieces[k as int]);
        }
        let t = crate::text::trimmed(&pieces[k]);
        if t.len() > 0 {
            push_part(&mut out, t);
        }
        k = k + 1;
    }
    assert(pieces.deep_view().subrange(0, k as int) =~= pieces.deep_view());
    if out.len() == 0 {
        push_part(&mut out, Vec::new());
        assert(out.deep_view() =~= seq![Seq::<char>::empty()]);
    }
    doc_of(&out)
}

/// Wrap a single string in one ADF paragraph node.
///
/// For form field values where the full text is a single paragraph.
pub fn text_to_adf_inline(text: &str) -> (r: Json)
    ensures
        is_doc(r, seq![text@]),
{
    let mut ps: Vec<Vec<char>> = Vec::new();
    push_part(&mut ps, str_chars(text));
    assert(ps.deep_view() =~= seq![text@]);
    doc_of(&ps)
}


// ── Reading back what was built ──────────────────────────────────────

proof fn lemma_keys()
    ensures
        "type"@ != "marks"@,
        "text"@ != "marks"@,
        "type"@ != "text"@,
        "type"@ != "content"@,
        "version"@ != "type"@,
        "version"@ != "content"@,
        "type"@ != "version"@,
        "content"@ != "type"@,
        "paragraph"@ != "doc"@,
{
    reveal_strlit("type");
    reveal_strlit("text");
    reveal_strlit("marks");
    reveal_strlit("content");
    reveal_strlit("version");
    reveal_strlit("paragraph");
    reveal_strlit("doc");
    assert("type"@.len() == 4);
    assert("text"@.len() == 4);
    assert("marks"@.len() == 5);
    assert("content"@.len() == 7);
    assert("version"@.len() == 7);
    assert("paragraph"@.len() == 9);
    assert("doc"@.len() == 3);
    assert("type"@[1] == 'y');
    assert("text"@[1] == 'e');
    assert("version"@[0] == 'v');
    assert("content"@[0] == 'c');
}

proof fn lemma_text_node(j: Json, t: Seq<char>)
    requires
        is_text_node(j, t),
    ensures
        adf_text(j) == t,
{
    lemma_keys();
    reveal_strlit("doc");
    reveal_strlit("paragraph");
    reveal_strlit("listItem");
    reveal_strlit("heading");
    reveal_strlit("bulletList");
    reveal_strlit("orderedList");
    reveal_strlit("codeBlock");
    reveal_strlit("blockquote");
    reveal_strlit("text");
    assert("doc"@.len() == 3);
    assert("paragraph"@.len() == 9);
    assert("listItem"@.len() == 8);
    assert("heading"@.len() == 7);
    assert("bulletList"@.len() == 10);
    assert("orderedList"@.len() == 11);
    assert("codeBlock"@.len() == 9);
    assert("blockquote"@.len() == 10);
    assert("text"@.len() == 4);
    if let Json::Object(fs) = j {
        let f = fs@;
        assert(member(f, "type"@) == Some(f[0].1));
        assert(f.drop_first().drop_first() =~= Seq::<(String, Json)>::empty());
        assert(member(f.drop_first().drop_first(), "marks"@) is None);
        assert(f.drop_first()[0] == f[1]);
        assert(f[1].0@ != "marks"@);
        assert(f[0].0@ != "marks"@);
        assert(member(f.drop_first(), "marks"@) is None);
        assert(member(f, "marks"@) is None);
        assert(marks_of(j) =~= Seq::<Json>::empty());
        assert(f[0].0@ != "text"@);
        assert(member(f.drop_first(), "text"@) == Some(f[1].1));
        assert(member(f, "text"@) == Some(f[1].1));
    }
}

proof fn lemma_paragraph(j: Json, t: Seq<char>)
    requires
        is_paragraph(j, t),
    ensures
        adf_text(j) == t,
{
    lemma_keys();
    reveal_strlit("paragraph");
    reveal_strlit("listItem");
    reveal_strlit("doc");
    reveal_strlit("heading");
    assert("paragraph"@.len() == 9);
    assert("doc"@.len() == 3);
    assert("heading"@.len() == 7);
    if let Json::Object(fs) = j {
        let f = fs@;
        assert(member(f, "type"@) == Some(f[0].1));
        assert(f.drop_first()[0] == f[1]);
        assert(f[0].0@ != "content"@);
        assert(member(f.drop_first(), "content"@) == Some(f[1].1));
        assert(member(f, "content"@) == Some(f[1].1));
        if let Json::Array(v) = f[1].1 {
            assert(content(j) == v@);
            lemma_text_node(v@[0], t);
            assert(child_texts(j, 0) =~= Seq::<Seq<char>>::empty());
            assert(child_texts(j, 1) =~= seq![t]);
            assert(texts(j) =~= seq![t]);
            assert(seq![t].drop_last() =~= Seq::<Seq<char>>::empty());
            assert(concat(seq![t]) =~= concat(Seq::<Seq<char>>::empty()) + t);
        }
    }
}

/// A document of paragraphs reads back as its non-empty paragraph texts, separated by
/// blank lines.
pub proof fn lemma_doc_text(j: Json, ts: Seq<Seq<char>>)
    requires
        is_doc(j, ts),
    ensures
        adf_text(j) == join(nonempty(ts), "\n\n"@),
{
    lemma_keys();
    if let Json::Object(fs) = j {
        let f = fs@;
        assert(f.drop_first()[0] == f[1]);
        assert(f.drop_first().drop_first()[0] == f[2]);
        assert(f[0].0@ != "type"@);
        assert(f[0].0@ != "content"@);
        assert(f[1].0@ != "content"@);
        assert(member(f.drop_first(), "type"@) == Some(f[1].1));
        assert(member(f, "type"@) == Some(f[1].1));
        assert(member(f.drop_first().drop_first(), "content"@) == Some(f[2].1));
        assert(member(f.drop_first(), "content"@) == Some(f[2].1));
        assert(member(f, "content"@) == Some(f[2].1));
        if let Json::Array(v) = f[2].1 {
            assert(content(j) == v@);
            lemma_doc_children(j, v@, ts, v@.len() as nat);
            assert(texts(j) == ts.subrange(0, ts.len() as int));
            assert(ts.subrange(0, ts.len() as int) =~= ts);
        }
    }
}

proof fn lemma_doc_children(j: Json, v: Seq<Json>, ts: Seq<Seq<char>>, n: nat)
    requires
        content(j) == v,
        v.len() == ts.len(),
        forall|i: int| 0 <= i < ts.len() ==> is_paragraph(#[trigger] v[i], ts[i]),
        n <= v.len(),
    ensures
        child_texts(j, n) == ts.subrange(0, n as int),
    decreases n,
{
    if n > 0 {
        lemma_doc_children(j, v, ts, (n - 1) as nat);
        lemma_paragraph(v[n - 1], ts[n - 1]);
        assert(ts.subrange(0, n as int) =~= ts.subrange(0, n - 1).push(ts[n - 1]));
    } else {
        assert(ts.subrange(0, 0) =~= Seq::<Seq<char>>::empty());
    }
}

proof fn lemma_nonempty_all(ps: Seq<Seq<char>>)
    requires
        forall|i: int| 0 <= i < ps.len() ==> (#[trigger] ps[i]).len() > 0,
    ensures
        nonempty(ps) == ps,
    decreases ps.len(),
{
    if ps.len() > 0 {
        lemma_nonempty_all(ps.drop_last());
        assert(nonempty(ps.drop_last()).push(ps.last()) =~= ps);
    }
}

proof fn lemma_trimmed_nonblank_nonempty(ps: Seq<Seq<char>>)
    ensures
        forall|i: int| 0 <= i < trimmed_nonblank(ps).len() ==> (#[trigger] trimmed_nonblank(ps)[i]).len() > 0,
    decreases ps.len(),
{
    if ps.len() > 0 {
        lemma_trimmed_nonblank_nonempty(ps.drop_last());
        let prev = trimmed_nonblank(ps.drop_last());
        if trim(ps.last()).len() > 0 {
            assert forall|i: int| 0 <= i < prev.push(trim(ps.last())).len() implies (#[trigger] prev.push(
                trim(ps.last()),
            )[i]).len() > 0 by {
                if i < prev.len() {
                    assert(prev.push(trim(ps.last()))[i] == prev[i]);
                }
            }
        }
    }
}

/// Text turned into a document and read back gives its non-blank paragraphs, trimmed,
/// separated by blank lines.
pub proof fn lemma_text_to_adf_round_trip(s: Seq<char>, j: Json)
    requires
        is_doc(j, paragraphs(s)),
    ensures
        adf_text(j) == join(trimmed_nonblank(split_blank(s)), "\n\n"@),
{
    lemma_doc_text(j, paragraphs(s));
    let ps = trimmed_nonblank(split_blank(s));
    if ps.len() == 0 {
        let one = seq![Seq::<char>::empty()];
        assert(one.drop_last() =~= Seq::<Seq<char>>::empty());
        assert(nonempty(Seq::<Seq<char>>::empty()) =~= Seq::<Seq<char>>::empty());
        assert(nonempty(one) =~= Seq::<Seq<char>>::empty());
    } else {
        lemma_trimmed_nonblank_nonempty(split_blank(s));
        lemma_nonempty_all(ps);
    }
}

// ── Code blocks ──────────────────────────────────────────────────────

/// No part of a text cut at `c` holds `c`.
proof fn lemma_split_parts_lack(s: Seq<char>, c: char)
    ensures
        forall|i: int| 0 <= i < split_on(s, c).len() ==> lacks(#[trigger] split_on(s, c)[i], c),
    decreases s.len(),
{
    if s.len() > 0 {
        let p = split_on(s.drop_last(), c);
        lemma_split_parts_lack(s.drop_last(), c);
        crate::text::lemma_split_on_nonempty(s.drop_last(), c);
        if s.last() != c {
            let q = p.last().push(s.last());
            assert(lacks(q, c)) by {
                assert forall|k: int| 0 <= k < q.len() implies #[trigger] q[k] != c by {
                    if k < p.last().len() {
                        assert(q[k] == p.last()[k]);
                        assert(lacks(p[p.len() - 1], c));
                    }
                }
            }
        }
        assert forall|i: int| 0 <= i < split_on(s, c).len() implies lacks(
            #[trigger] split_on(s, c)[i],
            c,
        ) by {
            if s.last() == c {
                if i < p.len() {
                    assert(split_on(s, c)[i] == p[i]);
                } else {
                    assert(split_on(s, c)[i] == Seq::<char>::empty());
                }
            } else if i < p.len() - 1 {
                assert(split_on(s, c)[i] == p[i]);
            }
        }
    }
}

/// No line of a text holds a line break.
proof fn lemma_lines_lack(s: Seq<char>)
    ensures
        forall|i: int| 0 <= i < lines(s).len() ==> lacks(#[trigger] lines(s)[i], '\n'),
{
    if s.len() > 0 {
        let raw = split_on(s, '\n');
        lemma_split_parts_lack(s, '\n');
        let body = if s.last() == '\n' {
            raw.drop_last()
        } else {
            raw
        };
        assert forall|i: int| 0 <= i < lines(s).len() implies lacks(#[trigger] lines(s)[i], '\n') by {
            assert(body[i] == raw[i]);
            assert(lacks(raw[i], '\n'));
            let l = lines(s)[i];
            assert forall|k: int| 0 <= k < l.len() implies #[trigger] l[k] != '\n' by {
                assert(l[k] == body[i][k]);
            }
        }
    }
}

/// Text cut into lines, each given the prefix `p`, joined by line breaks: cut at the line
/// breaks again, it is line for line `p` followed by the matching line of the text.
proof fn lemma_prefixed_lines(x: Seq<char>, p: Seq<char>)
    requires
        lacks(p, '\n'),
    ensures
        lines(x).len() == 0 ==> join(prefixed(lines(x), p), "\n"@).len() == 0,
        lines(x).len() > 0 ==> {
            let out = split_on(join(prefixed(lines(x), p), "\n"@), '\n');
            &&& out.len() == lines(x).len()
            &&& forall|i: int| 0 <= i < out.len() ==> #[trigger] out[i] == p + lines(x)[i]
        },
{
    reveal_strlit("\n");
    let code = lines(x);
    let pre = prefixed(code, p);
    if code.len() > 0 {
        lemma_lines_lack(x);
        assert forall|i: int| 0 <= i < pre.len() implies lacks(#[trigger] pre[i], '\n') by {
            assert(pre[i] == p + code[i]);
            assert(lacks(code[i], '\n'));
            let y = pre[i];
            assert forall|k: int| 0 <= k < y.len() implies #[trigger] y[k] != '\n' by {
                if k >= p.len() {
                    assert(y[k] == code[i][k - p.len()]);
                } else {
                    assert(y[k] == p[k]);
                }
            }
        }
        assert("\n"@ =~= seq!['\n']);
        crate::person_laws::lemma_split_join(pre);
    }
}

/// The node types that the text conversion tells apart are different words.
proof fn lemma_node_types_differ()
    ensures
        "paragraph"@ != "doc"@,
        "listItem"@ != "doc"@ && "listItem"@ != "paragraph"@,
        "heading"@ != "doc"@ && "heading"@ != "paragraph"@ && "heading"@ != "listItem"@,
        "bulletList"@ != "doc"@ && "bulletList"@ != "paragraph"@ && "bulletList"@ != "listItem"@
            && "bulletList"@ != "heading"@,
        "orderedList"@ != "doc"@ && "orderedList"@ != "paragraph"@ && "orderedList"@ != "listItem"@
            && "orderedList"@ != "heading"@ && "orderedList"@ != "bulletList"@,
        "codeBlock"@ != "doc"@ && "codeBlock"@ != "paragraph"@ && "codeBlock"@ != "listItem"@
            && "codeBlock"@ != "heading"@ && "codeBlock"@ != "bulletList"@ && "codeBlock"@
            != "orderedList"@,
        "blockquote"@ != "doc"@ && "blockquote"@ != "paragraph"@ && "blockquote"@ != "listItem"@
            && "blockquote"@ != "heading"@ && "blockquote"@ != "bulletList"@ && "blockquote"@
            != "orderedList"@ && "blockquote"@ != "codeBlock"@,
        "hardBreak"@ != "doc"@ && "hardBreak"@ != "paragraph"@ && "hardBreak"@ != "listItem"@
            && "hardBreak"@ != "heading"@ && "hardBreak"@ != "bulletList"@ && "hardBreak"@
            != "orderedList"@ && "hardBreak"@ != "codeBlock"@ && "hardBreak"@ != "blockquote"@
            && "hardBreak"@ != "text"@,
{
    reveal_strlit("doc");
    reveal_strlit("paragraph");
    reveal_strlit("listItem");
    reveal_strlit("heading");
    reveal_strlit("bulletList");
    reveal_strlit("orderedList");
    reveal_strlit("codeBlock");
    reveal_strlit("blockquote");
    reveal_strlit("hardBreak");
    reveal_strlit("text");
    assert("doc"@.len() == 3 && "paragraph"@.len() == 9 && "listItem"@.len() == 8);
    assert("heading"@.len() == 7 && "bulletList"@.len() == 10 && "orderedList"@.len() == 11);
    assert("codeBlock"@.len() == 9 && "blockquote"@.len() == 10 && "hardBreak"@.len() == 9);
    assert("text"@.len() == 4);
    assert("codeBlock"@[0] != "paragraph"@[0]);
    assert("blockquote"@[1] != "bulletList"@[1]);
    assert("hardBreak"@[0] != "paragraph"@[0] && "hardBreak"@[0] != "codeBlock"@[0]);
}

/// The texts of the children, in order.
proof fn lemma_texts_are_children(node: Json)
    ensures
        texts(node) == Seq::new(content(node).len(), |i: int| adf_text(content(node)[i])),
{
    lemma_child_texts_prefix(node, content(node).len());
}

proof fn lemma_child_texts_prefix(node: Json, n: nat)
    requires
        n <= content(node).len(),
    ensures
        child_texts(node, n) == Seq::new(n, |i: int| adf_text(content(node)[i])),
    decreases n,
{
    if n > 0 {
        lemma_child_texts_prefix(node, (n - 1) as nat);
        assert(child_texts(node, n) =~= Seq::new(n, |i: int| adf_text(content(node)[i])));
    } else {
        assert(child_texts(node, n) =~= Seq::new(n, |i: int| adf_text(content(node)[i])));
    }
}

/// A code block's text is its lines, each indented by four spaces: cut at line breaks, the
/// text is line for line four spaces followed by the matching line of the block's code (the
/// texts of its children, put together); a block without code gives nothing.
pub proof fn lemma_code_block_indents_every_line(node: Json)
    requires
        node_type(node) == Some("codeBlock"@),
    ensures
        lines(concat(texts(node))).len() == 0 ==> adf_text(node).len() == 0,
        lines(concat(texts(node))).len() > 0 ==> {
            let out = split_on(adf_text(node), '\n');
            let code = lines(concat(texts(node)));
            &&& out.len() == code.len()
            &&& forall|i: int| 0 <= i < out.len() ==> #[trigger] out[i] == "    "@ + code[i]
        },
{
    lemma_node_types_differ();
    reveal_strlit("    ");
    lemma_prefixed_lines(concat(texts(node)), "    "@);
}

/// A quote's text is its lines, each after `> `: cut at line breaks, the text is line for
/// line `> ` followed by the matching line of the children's texts joined by line breaks.
pub proof fn lemma_blockquote_marks_every_line(node: Json)
    requires
        node_type(node) == Some("blockquote"@),
    ensures
        ({
            let quoted = lines(join(texts(node), "\n"@));
            let out = split_on(adf_text(node), '\n');
            &&& quoted.len() == 0 ==> adf_text(node).len() == 0
            &&& quoted.len() > 0 ==> out.len() == quoted.len() && forall|i: int|
                0 <= i < out.len() ==> #[trigger] out[i] == "> "@ + quoted[i]
        }),
{
    lemma_node_types_differ();
    reveal_strlit("> ");
    lemma_prefixed_lines(join(texts(node), "\n"@), "> "@);
}

/// A paragraph's (or list item's) text is its children's texts one after the other.
pub proof fn lemma_paragraph_text(node: Json)
    requires
        node_type(node) == Some("paragraph"@) || node_type(node) == Some("listItem"@),
    ensures
        adf_text(node) == concat(Seq::new(content(node).len(), |i: int| adf_text(content(node)[i]))),
{
    lemma_node_types_differ();
    lemma_texts_are_children(node);
}

/// A heading's text is as many `#` as its level, a space, then its children's texts.
pub proof fn lemma_heading_text(node: Json)
    requires
        node_type(node) == Some("heading"@),
    ensures
        adf_text(node) == Seq::new(heading_level(node), |i: int| '#') + " "@ + concat(
            Seq::new(content(node).len(), |i: int| adf_text(content(node)[i])),
        ),
{
    lemma_node_types_differ();
    lemma_texts_are_children(node);
}

/// A bullet list's text is one line `- <item>` per item, in order, joined by line breaks.
pub proof fn lemma_bullet_list_text(node: Json)
    requires
        node_type(node) == Some("bulletList"@),
    ensures
        adf_text(node) == join(
            Seq::new(content(node).len(), |i: int| "- "@ + adf_text(content(node)[i])),
            "\n"@,
        ),
{
    lemma_node_types_differ();
    lemma_texts_are_children(node);
    assert(prefixed(texts(node), "- "@) =~= Seq::new(
        content(node).len(),
        |i: int| "- "@ + adf_text(content(node)[i]),
    ));
}

/// An ordered list's text is one line `<n>. <item>` per item, numbered from 1 in order,
/// joined by line breaks.
pub proof fn lemma_ordered_list_text(node: Json)
    requires
        node_type(node) == Some("orderedList"@),
    ensures
        adf_text(node) == join(
            Seq::new(
                content(node).len(),
                |i: int| dec((i + 1) as nat) + ". "@ + adf_text(content(node)[i]),
            ),
            "\n"@,
        ),
{
    lemma_node_types_differ();
    lemma_texts_are_children(node);
    assert(numbered(texts(node)) =~= Seq::new(
        content(node).len(),
        |i: int| dec((i + 1) as nat) + ". "@ + adf_text(content(node)[i]),
    ));
}

/// A hard break's text is one line break.
pub proof fn lemma_hard_break_text(node: Json)
    requires
        node_type(node) == Some("hardBreak"@),
    ensures
        adf_text(node) == seq!['\n'],
{
    lemma_node_types_differ();
    reveal_strlit("\n");
    assert("\n"@ =~= seq!['\n']);
}

} // verus!
