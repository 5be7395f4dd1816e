//! Reading back the people file: the markdown that `PeopleFile::to_markdown` writes for
//! well-formed people is read by `PeopleFile::from_markdown` as the same people.
use vstd::prelude::*;
use crate::date::{chrono_parse_ymd, date_text, Date};
use crate::issue::{lemma_lacks_concat, lemma_run_len_prefix, lemma_trim_space_value};
use crate::person::{
    bullet, fold_lines, is_handle_char, new_person, parse_people, people_text, person_header,
    person_lines, sections, step_line, unicode_digit, PendingItemView, PersonView,
};
use crate::person::{
    asked_at, bracket_at, cut, digits_at, find_asked, find_bracket, nonempty_trimmed,
    parse_pending, pending_line, pending_lines, project_list,
};
use crate::text::{
    all_digits, dec, dec_pad, has_prefix_at, is_digit, is_trimmed, is_ws, join, lacks,
    lemma_dec_digits, lemma_split_on_append_pub, lemma_trim_trimmed, run_len, split_on, trim,
    trim_end, trim_start,
};

verus! {

// ── Lines of text ────────────────────────────────────────────────────

pub(crate) proof fn lemma_join_concat(a: Seq<Seq<char>>, b: Seq<Seq<char>>, sep: Seq<char>)
    requires
        a.len() >= 1,
        b.len() >= 1,
    ensures
        join(a + b, sep) == join(a, sep) + sep + join(b, sep),
    decreases b.len(),
{
    if b.len() == 1 {
        assert((a + b).drop_last() =~= a);
        assert((a + b).last() == b[0]);
    } else {
        let b0 = b.drop_last();
        lemma_join_concat(a, b0, sep);
        assert((a + b).drop_last() =~= a + b0);
        assert((a + b).last() == b.last());
        assert(join(a + b, sep) == join(a + b0, sep) + sep + b.last());
        assert(join(b, sep) == join(b0, sep) + sep + b.last());
    }
}

/// Lines free of line breaks, joined with `\n`, split back into those lines.
pub(crate) proof fn lemma_split_join(ls: Seq<Seq<char>>)
    requires
        ls.len() >= 1,
        forall|i: int| 0 <= i < ls.len() ==> lacks(#[trigger] ls[i], '\n'),
    ensures
        split_on(join(ls, seq!['\n']), '\n') == ls,
    decreases ls.len(),
{
    if ls.len() == 1 {
        assert(lacks(ls[0], '\n'));
        lemma_split_on_append_pub(Seq::<char>::empty(), ls[0], '\n');
        assert(Seq::<char>::empty() + ls[0] =~= ls[0]);
        assert(split_on(Seq::<char>::empty(), '\n') =~= seq![Seq::<char>::empty()]);
        assert(Seq::<char>::empty() + ls[0] =~= ls[0]);
        assert(split_on(ls[0], '\n') =~= ls);
    } else {
        let p = ls.drop_last();
        assert forall|i: int| 0 <= i < p.len() implies lacks(#[trigger] p[i], '\n') by {
            assert(p[i] == ls[i]);
        }
        lemma_split_join(p);
        let a = join(p, seq!['\n']) + seq!['\n'];
        assert(a.drop_last() =~= join(p, seq!['\n']));
        assert(split_on(a, '\n') == p.push(Seq::<char>::empty()));
        let x = ls.last();
        assert(lacks(x, '\n')) by {
            assert(x == ls[ls.len() - 1]);
        }
        lemma_split_on_append_pub(a, x, '\n');
        assert(join(ls, seq!['\n']) == a + x);
        assert(Seq::<char>::empty() + x =~= x);
        assert(split_on(a + x, '\n') =~= ls);
    }
}

/// Each person's lines, with an empty line between one person and the next.
pub open spec fn people_lines(ps: Seq<PersonView>) -> Seq<Seq<char>>
    decreases ps.len(),
{
    if ps.len() == 0 {
        Seq::<Seq<char>>::empty()
    } else if ps.len() == 1 {
        person_lines(ps[0])
    } else {
        people_lines(ps.drop_last()) + seq![Seq::<char>::empty()] + person_lines(ps.last())
    }
}

proof fn lemma_people_lines_len(ps: Seq<PersonView>)
    requires
        ps.len() >= 1,
    ensures
        people_lines(ps).len() >= 1,
    decreases ps.len(),
{
    if ps.len() > 1 {
        lemma_people_lines_len(ps.drop_last());
    }
}

proof fn lemma_people_text_lines(ps: Seq<PersonView>)
    requires
        ps.len() >= 1,
    ensures
        people_text(ps) == join(people_lines(ps), seq!['\n']),
    decreases ps.len(),
{
    reveal_strlit("\n");
    reveal_strlit("\n\n");
    let nl = seq!['\n'];
    assert("\n"@ =~= nl);
    assert("\n\n"@ =~= nl + nl);
    if ps.len() == 1 {
        assert(ps.drop_last() =~= Seq::<PersonView>::empty());
        assert(sections(ps.drop_last()) =~= Seq::<Seq<char>>::empty());
        assert(ps.last() == ps[0]);
        assert(sections(ps) == sections(ps.drop_last()).push(join(person_lines(ps[0]), "\n"@)));
        assert(sections(ps) =~= seq![join(person_lines(ps[0]), "\n"@)]);
    } else {
        let q = ps.drop_last();
        lemma_people_text_lines(q);
        lemma_people_lines_len(q);
        let pl = person_lines(ps.last());
        assert(pl.len() >= 1);
        assert(sections(q).len() == q.len()) by {
            lemma_sections_len(q);
        }
        lemma_sections_len(ps);
        assert(sections(ps) == sections(q).push(join(pl, "\n"@)));
        assert(sections(ps).drop_last() =~= sections(q));
        assert(sections(ps).last() == join(pl, "\n"@));
        assert(join(sections(ps), "\n\n"@) == join(sections(q), "\n\n"@) + "\n\n"@ + join(
            pl,
            "\n"@,
        ));
        let e = seq![Seq::<char>::empty()];
        lemma_join_concat(people_lines(q), e, nl);
        lemma_join_concat(people_lines(q) + e, pl, nl);
        assert(join(e, nl) =~= Seq::<char>::empty());
        assert(join(people_lines(q) + e, nl) =~= join(people_lines(q), nl) + nl);
        assert(people_lines(ps) == people_lines(q) + e + pl);
        assert(join(people_lines(ps), nl) =~= join(people_lines(q), nl) + (nl + nl) + join(
            pl,
            nl,
        ));
    }
}

proof fn lemma_sections_len(ps: Seq<PersonView>)
    ensures
        sections(ps).len() == ps.len(),
    decreases ps.len(),
{
    if ps.len() > 0 {
        lemma_sections_len(ps.drop_last());
    }
}

// ── Folding lines ────────────────────────────────────────────────────

/// `step_line` applied to each line in turn, starting from `st`.
pub open spec fn steps(
    st: (Seq<PersonView>, Option<PersonView>),
    ls: Seq<Seq<char>>,
) -> (Seq<PersonView>, Option<PersonView>)
    decreases ls.len(),
{
    if ls.len() == 0 {
        st
    } else {
        step_line(steps(st, ls.drop_last()), ls.last())
    }
}

proof fn lemma_fold_is_steps(ls: Seq<Seq<char>>)
    ensures
        fold_lines(ls) == steps((Seq::<PersonView>::empty(), None), ls),
    decreases ls.len(),
{
    if ls.len() > 0 {
        lemma_fold_is_steps(ls.drop_last());
    }
}

proof fn lemma_steps_concat(
    st: (Seq<PersonView>, Option<PersonView>),
    a: Seq<Seq<char>>,
    b: Seq<Seq<char>>,
)
    ensures
        steps(st, a + b) == steps(steps(st, a), b),
    decreases b.len(),
{
    if b.len() == 0 {
        assert(a + b =~= a);
    } else {
        lemma_steps_concat(st, a, b.drop_last());
        assert((a + b).drop_last() =~= a + b.drop_last());
        assert((a + b).last() == b.last());
    }
}

// ── Dates ────────────────────────────────────────────────────────────

pub open spec fn ten_pow(w: nat) -> nat
    decreases w,
{
    if w == 0 {
        1
    } else {
        10 * ten_pow((w - 1) as nat)
    }
}

pub(crate) proof fn lemma_dec_len(n: nat, w: nat)
    requires
        1 <= w,
        n < ten_pow(w),
    ensures
        dec(n).len() <= w,
    decreases w,
{
    if n >= 10 {
        let t = ten_pow((w - 1) as nat);
        if w == 1 {
            assert(ten_pow(1) == 10 * ten_pow(0));
        }
        assert(n < 10 * t);
        assert(n / 10 < t) by (nonlinear_arith)
            requires
                n < 10 * t,
        ;
        lemma_dec_len(n / 10, (w - 1) as nat);
        assert(dec(n) == dec(n / 10).push(crate::text::digit_char(n % 10)));
    }
}

proof fn lemma_dec_pad_shape(n: nat, w: nat)
    requires
        1 <= w,
        n < ten_pow(w),
    ensures
        dec_pad(n, w).len() == w,
        all_digits(dec_pad(n, w)),
{
    lemma_dec_len(n, w);
    lemma_dec_digits(n);
    let d = dec(n);
    let pad = Seq::new((w - d.len()) as nat, |i: int| '0');
    assert(dec_pad(n, w) == pad + d);
    assert forall|i: int| 0 <= i < (pad + d).len() implies is_digit(#[trigger] (pad + d)[i]) by {
        if i < pad.len() {
            assert((pad + d)[i] == '0');
        } else {
            assert((pad + d)[i] == d[i - pad.len()]);
        }
    }
}

/// The date has a four-digit year, so its text is `DDDD-DD-DD`.
pub open spec fn date_shape(t: Seq<char>) -> bool {
    &&& t.len() == 10
    &&& t[4] == '-'
    &&& t[7] == '-'
    &&& forall|i: int| 0 <= i < 10 && i != 4 && i != 7 ==> is_digit(#[trigger] t[i])
}

/// The text of a date with a four-digit year: its shape, and its three numbers' texts.
pub(crate) proof fn lemma_date_text_parts(d: Date)
    requires
        d.wf(),
        0 <= d.year <= 9999,
    ensures
        date_shape(date_text(d)),
        date_text(d).subrange(0, 4) == dec_pad(d.year as nat, 4),
        date_text(d).subrange(5, 7) == dec_pad(d.month as nat, 2),
        date_text(d).subrange(8, 10) == dec_pad(d.day as nat, 2),
{
    reveal_with_fuel(ten_pow, 5);
    lemma_dec_pad_shape(d.year as nat, 4);
    lemma_dec_pad_shape(d.month as nat, 2);
    lemma_dec_pad_shape(d.day as nat, 2);
    let y = dec_pad(d.year as nat, 4);
    let m = dec_pad(d.month as nat, 2);
    let dd = dec_pad(d.day as nat, 2);
    let t = date_text(d);
    assert(t == y + seq!['-'] + m + seq!['-'] + dd);
    assert forall|i: int| 0 <= i < 10 && i != 4 && i != 7 implies is_digit(#[trigger] t[i]) by {
        if i < 4 {
            assert(t[i] == y[i]);
        } else if i < 7 {
            assert(t[i] == m[i - 5]);
        } else {
            assert(t[i] == dd[i - 8]);
        }
    }
    assert(t.subrange(0, 4) =~= y);
    assert(t.subrange(5, 7) =~= m);
    assert(t.subrange(8, 10) =~= dd);
}

pub(crate) proof fn lemma_date_shape(d: Date)
    requires
        d.wf(),
        0 <= d.year <= 9999,
    ensures
        date_shape(date_text(d)),
        chrono_parse_ymd(date_text(d)) == Some(d),
{
    crate::date::lemma_date_read_back(d);
    reveal_with_fuel(ten_pow, 5);
    lemma_dec_pad_shape(d.year as nat, 4);
    lemma_dec_pad_shape(d.month as nat, 2);
    lemma_dec_pad_shape(d.day as nat, 2);
    let y = dec_pad(d.year as nat, 4);
    let m = dec_pad(d.month as nat, 2);
    let dd = dec_pad(d.day as nat, 2);
    let t = date_text(d);
    assert(t == y + seq!['-'] + m + seq!['-'] + dd);
    assert forall|i: int| 0 <= i < 10 && i != 4 && i != 7 implies is_digit(#[trigger] t[i]) by {
        if i < 4 {
            assert(t[i] == y[i]);
        } else if i < 7 {
            assert(t[i] == m[i - 5]);
        } else {
            assert(t[i] == dd[i - 8]);
        }
    }
}

// ── Pending items ────────────────────────────────────────────────────

/// A real date with a four-digit year, which the line formats read back.
pub open spec fn date_reads_back(d: Date) -> bool {
    &&& d.wf()
    &&& 0 <= d.year <= 9999
}

/// A pending item that its line describes exactly: a description with no line break, no
/// `(` and no `[`, trimmed and not empty; a date that reads back; a project name with no
/// line break, `(` or `]`.
pub open spec fn pending_ok(p: PendingItemView) -> bool {
    &&& p.description.len() > 0
    &&& is_trimmed(p.description)
    &&& lacks(p.description, '\n')
    &&& lacks(p.description, '(')
    &&& lacks(p.description, '[')
    &&& (p.since matches Some(d) ==> date_reads_back(d))
    &&& (p.project matches Some(pr) ==> pr.len() > 0 && lacks(pr, ']') && lacks(pr, '(')
        && lacks(pr, '\n'))
}

/// Regex's `\d` holds the ASCII digits.
pub open spec fn ascii_digits_match() -> bool {
    forall|c: char| is_digit(c) ==> #[trigger] unicode_digit(c)
}

/// regex's `\d` holds the ASCII digits.
pub proof fn lemma_ascii_digits_match()
    ensures
        ascii_digits_match(),
{
    assert forall|c: char| is_digit(c) implies #[trigger] unicode_digit(c) by {
        assert((c as u32) < 128);
    }
}

proof fn lemma_no_open_paren(s: Seq<char>, i: int)
    requires
        0 <= i,
        lacks(s, '('),
    ensures
        find_asked(s, i) is None,
    decreases s.len() + 1 - i,
{
    if i <= s.len() {
        reveal_strlit("(asked");
        if has_prefix_at(s, i, "(asked"@) {
            assert(s.subrange(i, i + 6)[0] == s[i]);
            assert(s[i] != '(');
        }
        lemma_no_open_paren(s, i + 1);
    }
}

proof fn lemma_no_open_bracket(s: Seq<char>, i: int)
    requires
        0 <= i,
        lacks(s, '['),
    ensures
        find_bracket(s, i) is None,
    decreases s.len() + 1 - i,
{
    if i <= s.len() {
        if 0 <= i < s.len() {
            assert(s[i] != '[');
        }
        lemma_no_open_bracket(s, i + 1);
    }
}

/// The search moves past positions that hold no `(`.
proof fn lemma_asked_skip(s: Seq<char>, a: int, b: int)
    requires
        0 <= a <= b <= s.len(),
        forall|i: int| a <= i < b ==> s[i] != '(',
    ensures
        find_asked(s, a) == find_asked(s, b),
    decreases b - a,
{
    if a < b {
        reveal_strlit("(asked");
        if has_prefix_at(s, a, "(asked"@) {
            assert(s.subrange(a, a + 6)[0] == s[a]);
        }
        lemma_asked_skip(s, a + 1, b);
    }
}

proof fn lemma_bracket_skip(s: Seq<char>, a: int, b: int)
    requires
        0 <= a <= b <= s.len(),
        forall|i: int| a <= i < b ==> s[i] != '[',
    ensures
        find_bracket(s, a) == find_bracket(s, b),
    decreases b - a,
{
    if a < b {
        lemma_bracket_skip(s, a + 1, b);
    }
}

pub(crate) proof fn lemma_trim_pad(x: Seq<char>, sp: Seq<char>)
    requires
        x.len() > 0,
        is_trimmed(x),
        forall|i: int| 0 <= i < sp.len() ==> is_ws(#[trigger] sp[i]),
    ensures
        trim(x + sp) == x,
    decreases sp.len(),
{
    lemma_trim_trimmed(x);
    assert(trim_start(x + sp) == x + sp) by {
        assert((x + sp)[0] == x[0]);
    }
    if sp.len() == 0 {
        assert(x + sp =~= x);
    } else {
        let sp0 = sp.drop_last();
        assert forall|i: int| 0 <= i < sp0.len() implies is_ws(#[trigger] sp0[i]) by {
            assert(sp0[i] == sp[i]);
        }
        lemma_trim_pad(x, sp0);
        assert((x + sp).drop_last() =~= x + sp0);
        assert((x + sp).last() == sp[sp.len() - 1]);
        assert(trim_end(x + sp) == trim_end(x + sp0));
        assert(trim_start(x + sp0) == x + sp0) by {
            assert((x + sp0)[0] == x[0]);
        }
    }
}

/// A description followed by white space and a bracketed project reads as the two.
proof fn lemma_bracket_part(desc: Seq<char>, sp: Seq<char>, pr: Seq<char>)
    requires
        desc.len() > 0,
        is_trimmed(desc),
        lacks(desc, '['),
        forall|i: int| 0 <= i < sp.len() ==> #[trigger] sp[i] == ' ',
        pr.len() > 0,
        lacks(pr, ']'),
    ensures
        ({
            let t = desc + sp + seq!['['] + pr + seq![']'];
            let k: int = (desc.len() + sp.len()) as int;
            &&& find_bracket(t, 0) == Some((k, t.len() as int))
            &&& t.subrange(k + 1, t.len() - 1) == pr
            &&& cut(t, k, t.len() as int) == desc
        }),
{
    let t = desc + sp + seq!['['] + pr + seq![']'];
    let k: int = (desc.len() + sp.len()) as int;
    assert forall|i: int| 0 <= i < k implies t[i] != '[' by {
        if i < desc.len() {
            assert(t[i] == desc[i]);
        } else {
            assert(t[i] == sp[i - desc.len()]);
        }
    }
    lemma_bracket_skip(t, 0, k);
    assert(t[k] == '[');
    assert(t.skip(k + 1) =~= pr + seq![']']);
    lemma_run_len_prefix(pr, seq![']'], |c: char| c != ']');
    assert(bracket_at(t, k) == Some(t.len() as int));
    assert(t.subrange(k + 1, t.len() - 1) =~= pr);
    assert(t.take(k) + t.skip(t.len() as int) =~= desc + sp);
    assert forall|i: int| 0 <= i < sp.len() implies is_ws(#[trigger] sp[i]) by {
        assert(sp[i] == ' ');
    }
    lemma_trim_pad(desc, sp);
}

/// `(asked DDDD-DD-DD)` at position `i` is a match that ends 18 characters later.
#[verifier::spinoff_prover]
#[verifier::rlimit(40)]
proof fn lemma_asked_here(s: Seq<char>, i: int, t: Seq<char>)
    requires
        0 <= i,
        i + 18 <= s.len(),
        s.subrange(i, i + 18) == seq!['(', 'a', 's', 'k', 'e', 'd', ' '] + t + seq![')'],
        date_shape(t),
        ascii_digits_match(),
    ensures
        asked_at(s, i) == Some((i + 7, i + 18)),
        s.subrange(i + 7, i + 17) == t,
{
    reveal_strlit("(asked");
    let m = seq!['(', 'a', 's', 'k', 'e', 'd', ' '] + t + seq![')'];
    assert forall|k: int| 0 <= k < 18 implies s[i + k] == #[trigger] m[k] by {
        assert(s.subrange(i, i + 18)[k] == s[i + k]);
    }
    assert(s.subrange(i, i + 6) =~= "(asked"@) by {
        assert forall|k: int| 0 <= k < 6 implies s.subrange(i, i + 6)[k] == "(asked"@[k] by {
            assert(s[i + k] == m[k]);
        }
    }
    let rest = s.skip(i + 6);
    assert(s[i + 6] == m[6]);
    assert(rest =~= seq![' '] + s.skip(i + 7));
    assert(s[i + 7] == m[7]);
    assert(m[7] == t[0]);
    assert(is_digit(t[0]));
    assert(s.skip(i + 7)[0] == s[i + 7]);
    lemma_run_len_prefix(seq![' '], s.skip(i + 7), |c: char| is_ws(c));
    let j = i + 7;
    assert forall|k: int| j <= k < j + 10 && k != j + 4 && k != j + 7 implies is_digit(
        #[trigger] s[k],
    ) by {
        assert(s[k] == m[k - i]);
        assert(m[k - i] == t[k - j]);
    }
    assert(digits_at(s, j, 4));
    assert(digits_at(s, j + 5, 2));
    assert(digits_at(s, j + 8, 2));
    assert(s[j + 4] == m[11]);
    assert(s[j + 7] == m[14]);
    assert(s[j + 10] == m[17]);
    assert(s.subrange(i + 7, i + 17) =~= t) by {
        assert forall|k: int| 0 <= k < 10 implies s.subrange(i + 7, i + 17)[k] == t[k] by {
            assert(s[i + 7 + k] == m[7 + k]);
        }
    }
}

/// The text after `- Pending: ` on a pending item's line.
pub open spec fn pending_rest(p: PendingItemView) -> Seq<char> {
    p.description + (match p.since {
        Some(d) => " (asked "@ + date_text(d) + ")"@,
        None => Seq::<char>::empty(),
    }) + (match p.project {
        Some(pr) => " ["@ + pr + "]"@,
        None => Seq::<char>::empty(),
    })
}

#[verifier::spinoff_prover]
#[verifier::rlimit(40)]
proof fn lemma_pending_undated(p: PendingItemView)
    requires
        pending_ok(p),
        p.since is None,
    ensures
        parse_pending(pending_rest(p)) == p,
        is_trimmed(pending_rest(p)),
        lacks(pending_rest(p), '\n'),
{
    reveal_strlit(" [");
    reveal_strlit("]");
    let desc = p.description;
    let n = desc.len() as int;
    let r = pending_rest(p);
    match p.project {
        None => {
            assert(r =~= desc);
            lemma_no_open_paren(r, 0);
            lemma_no_open_bracket(r, 0);
        },
        Some(pr) => {
            let sp = seq![' '];
            assert(r =~= desc + sp + seq!['['] + pr + seq![']']);
            assert forall|k: int| 0 <= k < r.len() implies #[trigger] r[k] != '(' && r[k] != '\n' by {
                if k < n {
                    assert(r[k] == desc[k]);
                } else if n + 1 < k < r.len() - 1 {
                    assert(r[k] == pr[k - n - 2]);
                }
            }
            lemma_no_open_paren(r, 0);
            lemma_bracket_part(desc, sp, pr);
            assert(r[0] == desc[0]);
            assert(r.last() == ']');
        },
    }
}

#[verifier::spinoff_prover]
#[verifier::rlimit(50)]
proof fn lemma_pending_dated(p: PendingItemView, d: Date)
    requires
        pending_ok(p),
        p.since == Some(d),
        ascii_digits_match(),
    ensures
        parse_pending(pending_rest(p)) == p,
        is_trimmed(pending_rest(p)),
        lacks(pending_rest(p), '\n'),
{
    reveal_strlit(" (asked ");
    reveal_strlit(")");
    reveal_strlit(" [");
    reveal_strlit("]");
    let desc = p.description;
    let n = desc.len() as int;
    let r = pending_rest(p);
    let t = date_text(d);
    lemma_date_shape(d);
    let asked = seq!['(', 'a', 's', 'k', 'e', 'd', ' '] + t + seq![')'];
    assert(" (asked "@ + t + ")"@ =~= seq![' '] + asked);
    let tail = match p.project {
        Some(pr) => " ["@ + pr + "]"@,
        None => Seq::<char>::empty(),
    };
    assert(r =~= desc + seq![' '] + asked + tail);
    let i0 = n + 1;
    assert(r.subrange(i0, i0 + 18) =~= asked);
    assert forall|k: int| 0 <= k < i0 implies r[k] != '(' by {
        if k < n {
            assert(r[k] == desc[k]);
        }
    }
    lemma_asked_skip(r, 0, i0);
    lemma_asked_here(r, i0, t);
    assert(find_asked(r, i0) == Some((i0, i0 + 7, i0 + 18)));
    assert(r.take(i0) + r.skip(i0 + 18) =~= desc + seq![' '] + tail);
    assert(r[0] == desc[0]);
    match p.project {
        None => {
            assert(desc + seq![' '] + tail =~= desc + seq![' ']);
            lemma_trim_pad(desc, seq![' ']);
            lemma_no_open_bracket(desc, 0);
            assert(r.last() == ')');
        },
        Some(pr) => {
            let sp = seq![' ', ' '];
            let t1 = desc + sp + seq!['['] + pr + seq![']'];
            assert(desc + seq![' '] + tail =~= t1);
            assert(is_trimmed(t1)) by {
                assert(t1[0] == desc[0]);
                assert(t1.last() == ']');
            }
            lemma_trim_trimmed(t1);
            lemma_bracket_part(desc, sp, pr);
            assert(r.last() == ']');
        },
    }
    lemma_dated_lacks_newline(p, d);
}

proof fn lemma_dated_lacks_newline(p: PendingItemView, d: Date)
    requires
        pending_ok(p),
        p.since == Some(d),
    ensures
        lacks(pending_rest(p), '\n'),
{
    reveal_strlit(" (asked ");
    reveal_strlit(")");
    reveal_strlit(" [");
    reveal_strlit("]");
    lemma_date_shape(d);
    let t = date_text(d);
    let a = p.description + " (asked "@;
    lemma_lacks_concat(p.description, " (asked "@, '\n');
    assert forall|k: int| 0 <= k < 10 implies #[trigger] t[k] != '\n' by {
        if k != 4 && k != 7 {
            assert(is_digit(t[k]));
        }
    }
    lemma_lacks_concat(a, t, '\n');
    lemma_lacks_concat(a + t, ")"@, '\n');
    match p.project {
        None => {
            assert(pending_rest(p) =~= a + t + ")"@);
        },
        Some(pr) => {
            lemma_lacks_concat(" ["@, pr, '\n');
            lemma_lacks_concat(" ["@ + pr, "]"@, '\n');
            lemma_lacks_concat(a + t + ")"@, " ["@ + pr + "]"@, '\n');
            assert(pending_rest(p) =~= a + t + ")"@ + (" ["@ + pr + "]"@));
        },
    }
}

proof fn lemma_parse_pending(p: PendingItemView)
    requires
        pending_ok(p),
        ascii_digits_match(),
    ensures
        parse_pending(pending_rest(p)) == p,
        is_trimmed(pending_rest(p)),
        pending_rest(p).len() > 0,
        lacks(pending_rest(p), '\n'),
        crate::person::pending_line(p) == "- Pending: "@ + pending_rest(p),
{
    match p.since {
        None => lemma_pending_undated(p),
        Some(d) => lemma_pending_dated(p, d),
    }
    assert(crate::person::pending_line(p) =~= "- Pending: "@ + pending_rest(p));
}

// ── The lines of one person ──────────────────────────────────────────

/// A handle that the header pattern reads back whole: `@` and one or more handle characters.
pub open spec fn handle_ok(h: Seq<char>) -> bool {
    &&& h.len() >= 2
    &&& h[0] == '@'
    &&& forall|i: int| 1 <= i < h.len() ==> is_handle_char(#[trigger] h[i])
    &&& lacks(h, '\n')
}

/// A project name that the projects line reads back: not empty, trimmed, with no comma and
/// no line break.
pub open spec fn project_name_ok(pr: Seq<char>) -> bool {
    &&& pr.len() > 0
    &&& is_trimmed(pr)
    &&& lacks(pr, ',')
    &&& lacks(pr, '\n')
}

/// A person that its section of the people file describes exactly.
pub open spec fn person_ok(p: PersonView) -> bool {
    &&& handle_ok(p.handle)
    &&& is_trimmed(p.role)
    &&& lacks(p.role, '\n')
    &&& forall|i: int| 0 <= i < p.projects.len() ==> project_name_ok(#[trigger] p.projects[i])
    &&& forall|i: int| 0 <= i < p.pending.len() ==> pending_ok(#[trigger] p.pending[i])
}

proof fn lemma_header(h: Seq<char>)
    requires
        handle_ok(h),
    ensures
        person_header("## "@ + h) == Some(h),
{
    reveal_strlit("## ");
    reveal_strlit("##");
    let l = "## "@ + h;
    assert(l =~= seq!['#', '#', ' '] + h);
    assert(l.subrange(0, 2) =~= "##"@);
    assert(l.skip(2) =~= seq![' '] + h);
    assert(h[0] == '@');
    lemma_run_len_prefix(seq![' '], h, |c: char| is_ws(c));
    assert(l[3] == '@');
    let t = h.skip(1);
    assert(l.skip(4) =~= t + Seq::<char>::empty());
    assert forall|i: int| 0 <= i < t.len() implies is_handle_char(#[trigger] t[i]) by {
        assert(t[i] == h[i + 1]);
    }
    lemma_run_len_prefix(t, Seq::<char>::empty(), |c: char| is_handle_char(c));
    assert(l.subrange(3, 4 + t.len() as int) =~= h);
}

/// `- ` and then content that starts and ends with no white space is a bullet line.
proof fn lemma_bullet(c: Seq<char>)
    requires
        c.len() > 0,
        is_trimmed(c),
    ensures
        person_header("- "@ + c) is None,
        trim("- "@ + c) == "- "@ + c,
        bullet("- "@ + c) == Some(c),
{
    reveal_strlit("- ");
    reveal_strlit("##");
    let l = "- "@ + c;
    assert(l =~= seq!['-', ' '] + c);
    assert(l.subrange(0, 2)[0] == '-');
    assert("##"@[0] == '#');
    assert(is_trimmed(l)) by {
        assert(l.last() == c.last());
    }
    lemma_trim_trimmed(l);
    assert(l.skip(1) =~= seq![' '] + c);
    lemma_run_len_prefix(seq![' '], c, |c: char| is_ws(c));
    assert(l.skip(2) =~= c);
}

/// The non-empty trimmed pieces: the first project, then each later one after its space.
pub open spec fn spaced(ps: Seq<Seq<char>>) -> Seq<Seq<char>> {
    Seq::new(ps.len(), |i: int| if i == 0 { ps[0] } else { seq![' '] + ps[i] })
}

proof fn lemma_split_commas(ps: Seq<Seq<char>>)
    requires
        ps.len() >= 1,
        forall|i: int| 0 <= i < ps.len() ==> lacks(#[trigger] ps[i], ','),
    ensures
        split_on(join(ps, ", "@), ',') == spaced(ps),
    decreases ps.len(),
{
    reveal_strlit(", ");
    if ps.len() == 1 {
        assert(lacks(ps[0], ','));
        lemma_split_on_append_pub(Seq::<char>::empty(), ps[0], ',');
        assert(Seq::<char>::empty() + ps[0] =~= ps[0]);
        assert(split_on(Seq::<char>::empty(), ',') =~= seq![Seq::<char>::empty()]);
        assert(split_on(ps[0], ',') =~= spaced(ps));
    } else {
        let q = ps.drop_last();
        assert forall|i: int| 0 <= i < q.len() implies lacks(#[trigger] q[i], ',') by {
            assert(q[i] == ps[i]);
        }
        lemma_split_commas(q);
        let a = join(q, ", "@) + seq![','];
        assert(a.drop_last() =~= join(q, ", "@));
        assert(split_on(a, ',') == spaced(q).push(Seq::<char>::empty()));
        let x = seq![' '] + ps.last();
        assert(lacks(ps.last(), ',')) by {
            assert(ps.last() == ps[ps.len() - 1]);
        }
        lemma_lacks_concat(seq![' '], ps.last(), ',');
        lemma_split_on_append_pub(a, x, ',');
        assert(join(ps, ", "@) =~= a + x);
        assert(Seq::<char>::empty() + x =~= x);
        assert(split_on(a + x, ',') =~= spaced(ps));
    }
}

proof fn lemma_trimmed_pieces(ps: Seq<Seq<char>>)
    requires
        forall|i: int| 0 <= i < ps.len() ==> project_name_ok(#[trigger] ps[i]),
    ensures
        nonempty_trimmed(spaced(ps)) == ps,
    decreases ps.len(),
{
    if ps.len() == 1 {
        assert(project_name_ok(ps[0]));
        lemma_trim_trimmed(ps[0]);
        let x = spaced(ps);
        assert(x.drop_last() =~= Seq::<Seq<char>>::empty());
        assert(nonempty_trimmed(x.drop_last()) == Seq::<Seq<char>>::empty());
        assert(x.last() == ps[0]);
        assert(trim(x.last()).len() > 0);
        assert(nonempty_trimmed(x) == nonempty_trimmed(x.drop_last()).push(trim(x.last())));
        assert(nonempty_trimmed(x) =~= ps);
    } else if ps.len() > 1 {
        let q = ps.drop_last();
        assert forall|i: int| 0 <= i < q.len() implies project_name_ok(#[trigger] q[i]) by {
            assert(q[i] == ps[i]);
        }
        lemma_trimmed_pieces(q);
        assert(spaced(ps).drop_last() =~= spaced(q));
        assert(project_name_ok(ps[ps.len() - 1]));
        lemma_trim_space_value(ps.last());
        assert(spaced(ps).last() == seq![' '] + ps.last());
        assert(nonempty_trimmed(spaced(ps)) =~= ps);
    }
}

pub(crate) proof fn lemma_join_starts(ps: Seq<Seq<char>>, sep: Seq<char>)
    requires
        ps.len() >= 1,
        ps[0].len() > 0,
    ensures
        join(ps, sep).len() > 0,
        join(ps, sep)[0] == ps[0][0],
        join(ps, sep).last() == ps.last().last() || ps.last().len() == 0,
    decreases ps.len(),
{
    if ps.len() > 1 {
        lemma_join_starts(ps.drop_last(), sep);
        let a = join(ps.drop_last(), sep);
        assert(join(ps, sep) == a + sep + ps.last());
        assert((a + sep + ps.last())[0] == a[0]);
        if ps.last().len() > 0 {
            assert((a + sep + ps.last()).last() == ps.last().last());
        }
    }
}

pub(crate) proof fn lemma_join_lacks(ps: Seq<Seq<char>>, sep: Seq<char>, c: char)
    requires
        lacks(sep, c),
        forall|i: int| 0 <= i < ps.len() ==> lacks(#[trigger] ps[i], c),
    ensures
        lacks(join(ps, sep), c),
    decreases ps.len(),
{
    if ps.len() == 1 {
        assert(lacks(ps[0], c));
    } else if ps.len() > 1 {
        let q = ps.drop_last();
        assert forall|i: int| 0 <= i < q.len() implies lacks(#[trigger] q[i], c) by {
            assert(q[i] == ps[i]);
        }
        lemma_join_lacks(q, sep, c);
        assert(lacks(ps.last(), c)) by {
            assert(ps.last() == ps[ps.len() - 1]);
        }
        lemma_lacks_concat(join(q, sep), sep, c);
        lemma_lacks_concat(join(q, sep) + sep, ps.last(), c);
    }
}

/// A space and then comma-separated project names read back as the names.
#[verifier::spinoff_prover]
#[verifier::rlimit(40)]
pub(crate) proof fn lemma_project_list_join(ps: Seq<Seq<char>>)
    requires
        ps.len() > 0,
        forall|i: int| 0 <= i < ps.len() ==> project_name_ok(#[trigger] ps[i]),
    ensures
        project_list(seq![' '] + join(ps, ", "@)) == ps,
        join(ps, ", "@).len() > 0,
        is_trimmed(join(ps, ", "@)),
        lacks(join(ps, ", "@), '\n'),
{
    reveal_strlit(", ");
    let j = join(ps, ", "@);
    assert(project_name_ok(ps[0]));
    assert(project_name_ok(ps[ps.len() - 1]));
    lemma_join_starts(ps, ", "@);
    assert(trim_start(seq![' '] + j) == trim_start(j)) by {
        assert((seq![' '] + j).drop_first() =~= j);
    }
    assert(trim_start(j) == j);
    assert forall|i: int| 0 <= i < ps.len() implies lacks(#[trigger] ps[i], ',') by {
        assert(project_name_ok(ps[i]));
    }
    lemma_split_commas(ps);
    lemma_trimmed_pieces(ps);
    assert forall|i: int| 0 <= i < ps.len() implies lacks(#[trigger] ps[i], '\n') by {
        assert(project_name_ok(ps[i]));
    }
    lemma_join_lacks(ps, ", "@, '\n');
}

/// The projects line reads back as the project names.
#[verifier::spinoff_prover]
#[verifier::rlimit(40)]
proof fn lemma_projects_line(ps: Seq<Seq<char>>)
    requires
        ps.len() > 0,
        forall|i: int| 0 <= i < ps.len() ==> project_name_ok(#[trigger] ps[i]),
    ensures
        ({
            let c = "Projects: "@ + join(ps, ", "@);
            &&& c.len() > 0
            &&& is_trimmed(c)
            &&& lacks(c, '\n')
            &&& !has_prefix_at(c, 0, "Role:"@)
            &&& has_prefix_at(c, 0, "Projects:"@)
            &&& project_list(c.skip(9)) == ps
        }),
{
    reveal_strlit("Projects: ");
    reveal_strlit("Projects:");
    reveal_strlit("Role:");
    reveal_strlit(", ");
    let j = join(ps, ", "@);
    let c = "Projects: "@ + j;
    assert(project_name_ok(ps[0]));
    assert(project_name_ok(ps[ps.len() - 1]));
    lemma_join_starts(ps, ", "@);
    assert(c.subrange(0, 5)[0] != "Role:"@[0]);
    assert(c.subrange(0, 9) =~= "Projects:"@);
    assert(c.last() == j.last());
    assert(c.skip(9) =~= seq![' '] + j);
    assert(trim_start(seq![' '] + j) == trim_start(j)) by {
        assert((seq![' '] + j).drop_first() =~= j);
    }
    assert(trim_start(j) == j);
    assert forall|i: int| 0 <= i < ps.len() implies lacks(#[trigger] ps[i], ',') by {
        assert(project_name_ok(ps[i]));
    }
    lemma_split_commas(ps);
    lemma_trimmed_pieces(ps);
    assert forall|i: int| 0 <= i < ps.len() implies lacks(#[trigger] ps[i], '\n') by {
        assert(project_name_ok(ps[i]));
    }
    lemma_join_lacks(ps, ", "@, '\n');
    lemma_lacks_concat("Projects: "@, j, '\n');
}

// ── Reading the lines back ───────────────────────────────────────────

/// The people read so far, with the person being read added.
pub open spec fn flush(st: (Seq<PersonView>, Option<PersonView>)) -> Seq<PersonView> {
    match st.1 {
        Some(q) => st.0.push(q),
        None => st.0,
    }
}

proof fn lemma_step_empty(st: (Seq<PersonView>, Option<PersonView>))
    ensures
        step_line(st, Seq::<char>::empty()) == st,
{
    reveal_strlit("##");
    assert(trim(Seq::<char>::empty()) =~= Seq::<char>::empty());
}

proof fn lemma_step_role(st: (Seq<PersonView>, Option<PersonView>), q: PersonView, role: Seq<char>)
    requires
        st.1 == Some(q),
        role.len() > 0,
        is_trimmed(role),
    ensures
        step_line(st, "- Role: "@ + role) == (st.0, Some(PersonView { role, ..q })),
{
    reveal_strlit("- Role: ");
    reveal_strlit("- ");
    reveal_strlit("Role: ");
    reveal_strlit("Role:");
    let c = "Role: "@ + role;
    assert("- Role: "@ + role =~= "- "@ + c);
    assert(is_trimmed(c)) by {
        assert(c[0] == 'R');
        assert(c.last() == role.last());
    }
    lemma_bullet(c);
    assert(c.subrange(0, 5) =~= "Role:"@);
    assert(c.skip(5) =~= seq![' '] + role);
    lemma_trim_space_value(role);
}

proof fn lemma_step_projects(
    st: (Seq<PersonView>, Option<PersonView>),
    q: PersonView,
    ps: Seq<Seq<char>>,
)
    requires
        st.1 == Some(q),
        ps.len() > 0,
        forall|i: int| 0 <= i < ps.len() ==> project_name_ok(#[trigger] ps[i]),
    ensures
        step_line(st, "- Projects: "@ + join(ps, ", "@)) == (
            st.0,
            Some(PersonView { projects: ps, ..q }),
        ),
{
    reveal_strlit("- Projects: ");
    reveal_strlit("- ");
    reveal_strlit("Projects: ");
    let c = "Projects: "@ + join(ps, ", "@);
    assert("- Projects: "@ + join(ps, ", "@) =~= "- "@ + c);
    lemma_projects_line(ps);
    lemma_bullet(c);
}

proof fn lemma_step_pending(
    st: (Seq<PersonView>, Option<PersonView>),
    q: PersonView,
    item: PendingItemView,
)
    requires
        st.1 == Some(q),
        pending_ok(item),
        ascii_digits_match(),
    ensures
        step_line(st, pending_line(item)) == (
            st.0,
            Some(PersonView { pending: q.pending.push(item), ..q }),
        ),
{
    reveal_strlit("- Pending: ");
    reveal_strlit("- ");
    reveal_strlit("Pending: ");
    reveal_strlit("Pending:");
    reveal_strlit("Role:");
    reveal_strlit("Projects:");
    lemma_parse_pending(item);
    let r = pending_rest(item);
    let c = "Pending: "@ + r;
    assert(pending_line(item) =~= "- "@ + c);
    assert(is_trimmed(c)) by {
        assert(c[0] == 'P');
        assert(c.last() == r.last());
    }
    lemma_bullet(c);
    assert(c.subrange(0, 5)[0] != "Role:"@[0]);
    assert(c.subrange(0, 9)[1] != "Projects:"@[1]);
    assert(c.subrange(0, 8) =~= "Pending:"@);
    assert(c.skip(8) =~= seq![' '] + r);
    lemma_trim_space_value(r);
}

proof fn lemma_pending_steps(a: Seq<PersonView>, q: PersonView, items: Seq<PendingItemView>)
    requires
        forall|i: int| 0 <= i < items.len() ==> pending_ok(#[trigger] items[i]),
        ascii_digits_match(),
    ensures
        steps((a, Some(q)), pending_lines(items)) == (
            a,
            Some(PersonView { pending: q.pending + items, ..q }),
        ),
    decreases items.len(),
{
    if items.len() == 0 {
        assert(q.pending + items =~= q.pending);
        assert(pending_lines(items) =~= Seq::<Seq<char>>::empty());
    } else {
        let its = items.drop_last();
        assert forall|i: int| 0 <= i < its.len() implies pending_ok(#[trigger] its[i]) by {
            assert(its[i] == items[i]);
        }
        lemma_pending_steps(a, q, its);
        let q1 = PersonView { pending: q.pending + its, ..q };
        assert(pending_ok(items[items.len() - 1]));
        lemma_step_pending((a, Some(q1)), q1, items.last());
        assert(pending_lines(items).drop_last() =~= pending_lines(its));
        assert(pending_lines(items).last() == pending_line(items.last()));
        assert(q1.pending.push(items.last()) =~= q.pending + items);
    }
}

#[verifier::spinoff_prover]
#[verifier::rlimit(40)]
proof fn lemma_person_steps(st: (Seq<PersonView>, Option<PersonView>), p: PersonView)
    requires
        person_ok(p),
        ascii_digits_match(),
    ensures
        steps(st, person_lines(p)) == (flush(st), Some(p)),
{
    let hl = seq!["## "@ + p.handle];
    let rl = if p.role.len() > 0 {
        seq!["- Role: "@ + p.role]
    } else {
        Seq::<Seq<char>>::empty()
    };
    let pl = if p.projects.len() > 0 {
        seq!["- Projects: "@ + join(p.projects, ", "@)]
    } else {
        Seq::<Seq<char>>::empty()
    };
    let ql = pending_lines(p.pending);
    assert(person_lines(p) == hl + rl + pl + ql);
    lemma_steps_concat(st, hl + rl + pl, ql);
    lemma_steps_concat(st, hl + rl, pl);
    lemma_steps_concat(st, hl, rl);
    lemma_header(p.handle);
    assert(hl.drop_last() =~= Seq::<Seq<char>>::empty());
    assert(steps(st, hl.drop_last()) == st);
    assert(hl.last() == "## "@ + p.handle);
    let np = new_person(p.handle);
    let s1 = steps(st, hl);
    assert(s1 == (flush(st), Some(np)));
    let q2 = PersonView { role: p.role, ..np };
    if p.role.len() > 0 {
        lemma_step_role(s1, np, p.role);
        assert(rl.drop_last() =~= Seq::<Seq<char>>::empty());
        assert(steps(s1, rl.drop_last()) == s1);
        assert(rl.last() == "- Role: "@ + p.role);
    } else {
        assert(p.role =~= Seq::<char>::empty());
        assert(rl =~= Seq::<Seq<char>>::empty());
    }
    let s2 = steps(s1, rl);
    assert(s2 == (flush(st), Some(q2)));
    let q3 = PersonView { projects: p.projects, ..q2 };
    if p.projects.len() > 0 {
        lemma_step_projects(s2, q2, p.projects);
        assert(pl.drop_last() =~= Seq::<Seq<char>>::empty());
        assert(steps(s2, pl.drop_last()) == s2);
        assert(pl.last() == "- Projects: "@ + join(p.projects, ", "@));
    } else {
        assert(p.projects =~= Seq::<Seq<char>>::empty());
        assert(pl =~= Seq::<Seq<char>>::empty());
    }
    let s3 = steps(s2, pl);
    assert(s3 == (flush(st), Some(q3)));
    lemma_pending_steps(flush(st), q3, p.pending);
    assert(q3.pending + p.pending =~= p.pending);
}

/// Every line of the people file is free of line breaks.
#[verifier::spinoff_prover]
#[verifier::rlimit(40)]
proof fn lemma_person_lines_lack(p: PersonView)
    requires
        person_ok(p),
        ascii_digits_match(),
    ensures
        forall|i: int| 0 <= i < person_lines(p).len() ==> lacks(#[trigger] person_lines(p)[i], '\n'),
{
    reveal_strlit("## ");
    reveal_strlit("- Role: ");
    reveal_strlit("- Projects: ");
    reveal_strlit(", ");
    lemma_lacks_concat("## "@, p.handle, '\n');
    lemma_lacks_concat("- Role: "@, p.role, '\n');
    if p.projects.len() > 0 {
        lemma_projects_line(p.projects);
        reveal_strlit("- ");
        reveal_strlit("Projects: ");
        assert("- Projects: "@ + join(p.projects, ", "@) =~= "- "@ + ("Projects: "@ + join(
            p.projects,
            ", "@,
        )));
        lemma_lacks_concat("- "@, "Projects: "@ + join(p.projects, ", "@), '\n');
    }
    lemma_pending_lines_lack(p.pending);
    let hl = seq!["## "@ + p.handle];
    let rl = if p.role.len() > 0 {
        seq!["- Role: "@ + p.role]
    } else {
        Seq::<Seq<char>>::empty()
    };
    let pl = if p.projects.len() > 0 {
        seq!["- Projects: "@ + join(p.projects, ", "@)]
    } else {
        Seq::<Seq<char>>::empty()
    };
    let ql = pending_lines(p.pending);
    let all = hl + rl + pl + ql;
    assert(person_lines(p) == all);
    assert forall|i: int| 0 <= i < all.len() implies lacks(#[trigger] all[i], '\n') by {
        if i < hl.len() + rl.len() + pl.len() {
            if i >= hl.len() + rl.len() {
                assert(all[i] == pl[i - hl.len() - rl.len()]);
            } else if i >= hl.len() {
                assert(all[i] == rl[i - hl.len()]);
            } else {
                assert(all[i] == hl[i]);
            }
        } else {
            assert(all[i] == ql[i - hl.len() - rl.len() - pl.len()]);
        }
    }
}

proof fn lemma_pending_lines_lack(items: Seq<PendingItemView>)
    requires
        forall|i: int| 0 <= i < items.len() ==> pending_ok(#[trigger] items[i]),
        ascii_digits_match(),
    ensures
        pending_lines(items).len() == items.len(),
        forall|i: int|
            0 <= i < pending_lines(items).len() ==> lacks(#[trigger] pending_lines(items)[i], '\n'),
    decreases items.len(),
{
    if items.len() > 0 {
        let its = items.drop_last();
        assert forall|i: int| 0 <= i < its.len() implies pending_ok(#[trigger] its[i]) by {
            assert(its[i] == items[i]);
        }
        lemma_pending_lines_lack(its);
        assert(pending_ok(items[items.len() - 1]));
        lemma_parse_pending(items.last());
        reveal_strlit("- Pending: ");
        lemma_lacks_concat("- Pending: "@, pending_rest(items.last()), '\n');
        let pls = pending_lines(items);
        assert(pls == pending_lines(its).push(pending_line(items.last())));
        assert forall|i: int| 0 <= i < pls.len() implies lacks(#[trigger] pls[i], '\n') by {
            if i < pls.len() - 1 {
                assert(pls[i] == pending_lines(its)[i]);
            }
        }
    }
}

#[verifier::spinoff_prover]
#[verifier::rlimit(40)]
proof fn lemma_people_steps(ps: Seq<PersonView>)
    requires
        ps.len() >= 1,
        forall|i: int| 0 <= i < ps.len() ==> person_ok(#[trigger] ps[i]),
        ascii_digits_match(),
    ensures
        steps((Seq::<PersonView>::empty(), None), people_lines(ps)) == (
            ps.drop_last(),
            Some(ps.last()),
        ),
        forall|i: int| 0 <= i < people_lines(ps).len() ==> lacks(#[trigger] people_lines(ps)[i], '\n'),
    decreases ps.len(),
{
    let init = (Seq::<PersonView>::empty(), None::<PersonView>);
    assert(person_ok(ps[ps.len() - 1]));
    lemma_person_steps(init, ps.last());
    lemma_person_lines_lack(ps.last());
    if ps.len() == 1 {
        assert(ps.last() == ps[0]);
        assert(ps.drop_last() =~= Seq::<PersonView>::empty());
    } else {
        let q = ps.drop_last();
        assert forall|i: int| 0 <= i < q.len() implies person_ok(#[trigger] q[i]) by {
            assert(q[i] == ps[i]);
        }
        lemma_people_steps(q);
        let e = seq![Seq::<char>::empty()];
        let pl = person_lines(ps.last());
        assert(people_lines(ps) == people_lines(q) + e + pl);
        lemma_steps_concat(init, people_lines(q) + e, pl);
        lemma_steps_concat(init, people_lines(q), e);
        let sq = steps(init, people_lines(q));
        lemma_step_empty(sq);
        assert(e.drop_last() =~= Seq::<Seq<char>>::empty());
        assert(steps(sq, e.drop_last()) == sq);
        assert(steps(sq, e) == sq);
        lemma_person_steps(sq, ps.last());
        assert(flush(sq) =~= q);
        let all = people_lines(ps);
        assert forall|i: int| 0 <= i < all.len() implies lacks(#[trigger] all[i], '\n') by {
            let n = people_lines(q).len();
            if i < n {
                assert(all[i] == people_lines(q)[i]);
            } else if i == n {
                assert(all[i] == Seq::<char>::empty());
            } else {
                assert(all[i] == pl[i - n - 1]);
            }
        }
    }
}

/// Reading the markdown form of well-formed people gives back the same people: each handle
/// is `@` and handle characters, roles and project names are trimmed and free of line breaks,
/// project names hold no comma, and pending items are as `pending_ok` says.
pub proof fn lemma_people_round_trip(ps: Seq<PersonView>)
    requires
        forall|i: int| 0 <= i < ps.len() ==> person_ok(#[trigger] ps[i]),
    ensures
        parse_people(people_text(ps)) == ps,
{
    lemma_ascii_digits_match();
    let init = (Seq::<PersonView>::empty(), None::<PersonView>);
    if ps.len() == 0 {
        assert(sections(ps) =~= Seq::<Seq<char>>::empty());
        assert(people_text(ps) =~= Seq::<char>::empty());
        let ls = split_on(Seq::<char>::empty(), '\n');
        assert(ls =~= seq![Seq::<char>::empty()]);
        assert(ls.drop_last() =~= Seq::<Seq<char>>::empty());
        lemma_step_empty(init);
        assert(fold_lines(ls) == step_line(fold_lines(ls.drop_last()), ls.last()));
    } else {
        lemma_people_text_lines(ps);
        lemma_people_steps(ps);
        lemma_people_lines_len(ps);
        lemma_split_join(people_lines(ps));
        lemma_fold_is_steps(people_lines(ps));
        assert(ps.drop_last().push(ps.last()) =~= ps);
    }
}

/// Writing the people read back from the markdown gives the same markdown.
pub proof fn lemma_people_text_stable(ps: Seq<PersonView>)
    requires
        forall|i: int| 0 <= i < ps.len() ==> person_ok(#[trigger] ps[i]),
    ensures
        people_text(parse_people(people_text(ps))) == people_text(ps),
{
    lemma_people_round_trip(ps);
}

} // verus!
