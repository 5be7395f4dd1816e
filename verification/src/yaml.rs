//! The YAML side of project files: how scalars are written, and what is read back
//! out of a frontmatter block.
use vstd::prelude::*;
use crate::date::{chrono_parse_ymd, parse_ymd};
use crate::text::{
    ascii_lower_char, dec, is_digit, join, lowercase_eq, lowercase_of, run_len, slice, str_chars,
    string_from_chars, to_lowercase,
};

verus! {

broadcast use vstd::string::group_string_axioms;

// ── Characters ───────────────────────────────────────────────────────

/// What `char::is_alphanumeric` says of a character outside ASCII.
pub uninterp spec fn alphanumeric_other(c: char) -> bool;

/// What `char::is_alphanumeric` says of `c` (Unicode `Alphabetic` or `Numeric`): of an
/// ASCII character, that it is a letter or a digit.
pub open spec fn alphanumeric(c: char) -> bool {
    if (c as u32) < 128 {
        ('a' <= c && c <= 'z') || ('A' <= c && c <= 'Z') || ('0' <= c && c <= '9')
    } else {
        alphanumeric_other(c)
    }
}

/// Calls `char::is_alphanumeric`. The contract claims that of an ASCII character the result
/// is true exactly for the letters and digits; of others it is named.
#[verifier::external_body]
pub(crate) fn is_alphanumeric(c: char) -> (r: bool)
    ensures
        r == alphanumeric(c),
        (c as u32) >= 128 ==> r == alphanumeric_other(c),
{
    c.is_alphanumeric()
}

// ── Float syntax ─────────────────────────────────────────────────────

pub open spec fn digit_run(s: Seq<char>) -> nat {
    run_len(s, |c: char| is_digit(c))
}

pub open spec fn ascii_lower_seq(s: Seq<char>) -> Seq<char> {
    s.map_values(|c: char| ascii_lower_char(c))
}

/// An optional exponent: nothing, or `e`/`E`, an optional sign and one or more digits.
pub open spec fn exp_syntax(r: Seq<char>) -> bool {
    r.len() == 0 || ((r[0] == 'e' || r[0] == 'E') && {
        let u = if r.len() > 1 && (r[1] == '+' || r[1] == '-') {
            r.skip(2)
        } else {
            r.skip(1)
        };
        u.len() > 0 && digit_run(u) == u.len()
    })
}

/// `Digit+`, `Digit+ '.' Digit*` or `Digit* '.' Digit+`, then an optional exponent.
pub open spec fn number_syntax(t: Seq<char>) -> bool {
    let a = digit_run(t);
    let r1 = t.skip(a as int);
    if r1.len() > 0 && r1[0] == '.' {
        let r2 = r1.skip(1);
        let b = digit_run(r2);
        a + b > 0 && exp_syntax(r2.skip(b as int))
    } else {
        a > 0 && exp_syntax(r1)
    }
}

/// The texts that `str::parse::<f64>` accepts, as its documentation gives the grammar:
/// an optional sign, then `inf`, `infinity`, `nan` (in any case) or a decimal number.
pub open spec fn float_syntax(s: Seq<char>) -> bool {
    let t = if s.len() > 0 && (s[0] == '+' || s[0] == '-') {
        s.skip(1)
    } else {
        s
    };
    ascii_lower_seq(t) == "inf"@ || ascii_lower_seq(t) == "infinity"@ || ascii_lower_seq(t)
        == "nan"@ || number_syntax(t)
}

fn digit_end(s: &Vec<char>, from: usize) -> (r: usize)
    requires
        from <= s.len(),
    ensures
        from <= r <= s.len(),
        r - from == digit_run(s@.skip(from as int)),
{
    let mut i = from;
    while i < s.len() && '0' <= s[i] && s[i] <= '9'
        invariant
            from <= i <= s.len(),
            (i - from) + run_len(s@.skip(i as int), |c: char| is_digit(c)) == run_len(
                s@.skip(from as int),
                |c: char| is_digit(c),
            ),
        decreases s.len() - i,
    {
        assert(s@.skip(i as int).drop_first() =~= s@.skip(i + 1));
        i = i + 1;
    }
    i
}

pub fn eq_chars(a: &Vec<char>, b: &Vec<char>) -> (r: bool)
    ensures
        r == (a@ == b@),
{
    if a.len() != b.len() {
        return false;
    }
    let mut i: usize = 0;
    while i < a.len()
        invariant
            i <= a.len(),
            a.len() == b.len(),
            forall|k: int| 0 <= k < i ==> a@[k] == b@[k],
        decreases a.len() - i,
    {
        if a[i] != b[i] {
            return false;
        }
        i = i + 1;
    }
    assert(a@ =~= b@);
    true
}

fn ascii_lower(c: char) -> (r: char)
    ensures
        r == ascii_lower_char(c),
{
    if 'A' <= c && c <= 'Z' {
        ((c as u8) + 32) as char
    } else {
        c
    }
}

fn lower_ascii_all(s: &Vec<char>) -> (r: Vec<char>)
    ensures
        r@ == ascii_lower_seq(s@),
{
    let mut r: Vec<char> = Vec::new();
    let mut i: usize = 0;
    while i < s.len()
        invariant
            i <= s.len(),
            r@ == s@.subrange(0, i as int).map_values(|c: char| ascii_lower_char(c)),
        decreases s.len() - i,
    {
        r.push(ascii_lower(s[i]));
        i = i + 1;
        assert(r@ =~= s@.subrange(0, i as int).map_values(|c: char| ascii_lower_char(c)));
    }
    assert(s@.subrange(0, s@.len() as int) =~= s@);
    r
}

fn exp_ok(s: &Vec<char>, from: usize) -> (b: bool)
    requires
        from <= s.len(),
    ensures
        b == exp_syntax(s@.skip(from as int)),
{
    let ghost r = s@.skip(from as int);
    if from == s.len() {
        return true;
    }
    if s[from] != 'e' && s[from] != 'E' {
        return false;
    }
    let mut u = from + 1;
    if u < s.len() && (s[u] == '+' || s[u] == '-') {
        u = u + 1;
    }
    assert(r.skip(u - from) =~= s@.skip(u as int));
    if u == s.len() {
        return false;
    }
    let e = digit_end(s, u);
    e == s.len()
}

/// Whether `str::parse::<f64>` accepts `s`.
pub fn parses_as_float(s: &Vec<char>) -> (b: bool)
    ensures
        b == float_syntax(s@),
{
    let start: usize = if s.len() > 0 && (s[0] == '+' || s[0] == '-') {
        1
    } else {
        0
    };
    let t = slice(s, start, s.len());
    assert(t@ =~= (if s@.len() > 0 && (s@[0] == '+' || s@[0] == '-') {
        s@.skip(1)
    } else {
        s@
    }));
    let lt = lower_ascii_all(&t);
    if eq_chars(&lt, &str_chars("inf")) || eq_chars(&lt, &str_chars("infinity")) || eq_chars(
        &lt,
        &str_chars("nan"),
    ) {
        return true;
    }
    assert(t@.skip(0) =~= t@);
    let a = digit_end(&t, 0);
    assert(t@.skip(a as int) =~= t@.skip(a as int));
    if a < t.len() && t[a] == '.' {
        assert(t@.skip(a as int).skip(1) =~= t@.skip(a + 1));
        let b_end = digit_end(&t, a + 1);
        assert(t@.skip(a + 1).skip((b_end - (a + 1)) as int) =~= t@.skip(b_end as int));
        (a + (b_end - (a + 1)) > 0) && exp_ok(&t, b_end)
    } else {
        a > 0 && exp_ok(&t, a)
    }
}

// ── Writing scalars ──────────────────────────────────────────────────

pub open spec fn plain_char(c: char) -> bool {
    alphanumeric(c) || c == ' ' || c == '-' || c == '_'
}

/// A word that YAML would read as a boolean or null.
pub open spec fn yaml_keyword(s: Seq<char>) -> bool {
    let l = lowercase_of(s);
    l == "true"@ || l == "false"@ || l == "null"@ || l == "yes"@ || l == "no"@ || l == "on"@
        || l == "off"@
}

/// Text that can be written without quotes.
pub open spec fn yaml_plain(s: Seq<char>) -> bool {
    &&& forall|i: int| 0 <= i < s.len() ==> plain_char(#[trigger] s[i])
    &&& s.len() > 0
    &&& !yaml_keyword(s)
}

/// Every `'` doubled.
pub open spec fn double_quotes(s: Seq<char>) -> Seq<char>
    decreases s.len(),
{
    if s.len() == 0 {
        Seq::empty()
    } else if s.last() == '\'' {
        double_quotes(s.drop_last()) + seq!['\'', '\'']
    } else {
        double_quotes(s.drop_last()).push(s.last())
    }
}

/// How a string is written as a YAML scalar: bare where that reads back as the same
/// string, single-quoted otherwise (a date or a number is quoted too).
pub open spec fn yaml_scalar(s: Seq<char>) -> Seq<char> {
    if yaml_plain(s) {
        if chrono_parse_ymd(s) is Some || float_syntax(s) {
            seq!['\''] + s + seq!['\'']
        } else {
            s
        }
    } else if s.len() == 0 {
        seq!['\'', '\'']
    } else {
        seq!['\''] + double_quotes(s) + seq!['\'']
    }
}

/// Format a string for YAML output. Strings that need quoting get single-quoted.
pub fn yaml_string(s: &str) -> (r: String)
    ensures
        r@ == yaml_scalar(s@),
{
    let cs = str_chars(s);
    let mut all_plain = true;
    let mut i: usize = 0;
    while i < cs.len()
        invariant
            i <= cs.len(),
            cs@ == s@,
            all_plain == forall|k: int| 0 <= k < i ==> plain_char(#[trigger] cs@[k]),
        decreases cs.len() - i,
    {
        let c = cs[i];
        let ok = is_alphanumeric(c) || c == ' ' || c == '-' || c == '_';
        if !ok {
            all_plain = false;
        }
        i = i + 1;
    }
    let mut out: Vec<char> = Vec::new();
    if all_plain && cs.len() > 0 {
        let l = to_lowercase(s);
        let lc = str_chars(l.as_str());
        let kw = eq_chars(&lc, &str_chars("true")) || eq_chars(&lc, &str_chars("false"))
            || eq_chars(&lc, &str_chars("null")) || eq_chars(&lc, &str_chars("yes")) || eq_chars(
            &lc,
            &str_chars("no"),
        ) || eq_chars(&lc, &str_chars("on")) || eq_chars(&lc, &str_chars("off"));
        if !kw {
            assert(yaml_plain(s@));
            let quoted = parse_ymd(s).is_some() || parses_as_float(&cs);
            if quoted {
                out.push('\'');
                let mut j: usize = 0;
                while j < cs.len()
                    invariant
                        j <= cs.len(),
                        out@ == seq!['\''] + cs@.subrange(0, j as int),
                    decreases cs.len() - j,
                {
                    out.push(cs[j]);
                    j = j + 1;
                    assert(out@ =~= seq!['\''] + cs@.subrange(0, j as int));
                }
                out.push('\'');
                assert(cs@.subrange(0, cs@.len() as int) =~= cs@);
                assert(out@ =~= seq!['\''] + s@ + seq!['\'']);
                return string_from_chars(&out);
            }
            return string_from_chars(&cs);
        }
    }
    if cs.len() == 0 {
        out.push('\'');
        out.push('\'');
        assert(out@ =~= seq!['\'', '\'']);
        return string_from_chars(&out);
    }
    out.push('\'');
    let mut j: usize = 0;
    while j < cs.len()
        invariant
            j <= cs.len(),
            out@ == seq!['\''] + double_quotes(cs@.subrange(0, j as int)),
        decreases cs.len() - j,
    {
        assert(cs@.subrange(0, j + 1).drop_last() =~= cs@.subrange(0, j as int));
        if cs[j] == '\'' {
            out.push('\'');
            out.push('\'');
        } else {
            out.push(cs[j]);
        }
        j = j + 1;
        assert(out@ =~= seq!['\''] + double_quotes(cs@.subrange(0, j as int)));
    }
    out.push('\'');
    assert(cs@.subrange(0, cs@.len() as int) =~= cs@);
    string_from_chars(&out)
}


// ── Reading frontmatter ──────────────────────────────────────────────

/// What the frontmatter holds under one key, as far as project files read it.
#[derive(Debug, Clone)]
pub enum MetaValue {
    /// The key is missing (or the document is not a mapping).
    Absent,
    Str(String),
    Bool(bool),
    /// A number: its text as YAML writes it, and its value where it is a whole number
    /// that fits in a `u64`.
    Number(String, Option<u64>),
    /// A sequence: each item's text where the item is a string.
    List(Vec<Option<String>>),
    /// Null, a mapping or a tagged value.
    Other,
}

pub enum MetaView {
    Absent,
    Str(Seq<char>),
    Bool(bool),
    Number(Seq<char>, Option<u64>),
    List(Seq<Option<Seq<char>>>),
    Other,
}

impl View for MetaValue {
    type V = MetaView;

    open spec fn view(&self) -> MetaView {
        match self {
            MetaValue::Absent => MetaView::Absent,
            MetaValue::Str(s) => MetaView::Str(s@),
            MetaValue::Bool(b) => MetaView::Bool(*b),
            MetaValue::Number(t, n) => MetaView::Number(t@, *n),
            MetaValue::List(items) => MetaView::List(
                items@.map_values(
                    |o: Option<String>|
                        match o {
                            Some(x) => Some(x@),
                            None => None,
                        },
                ),
            ),
            MetaValue::Other => MetaView::Other,
        }
    }
}

// ── Documents of the shape this crate writes ─────────────────────────

/// A scalar as it is written: single-quoted (`'` doubled inside) or plain.
pub enum YamlScalar {
    Quoted(Seq<char>),
    Plain(Seq<char>),
}

/// The value of a top-level key: a scalar, a whole number, or a block list of scalars
/// (`[]` where it is empty).
pub enum YamlItem {
    Scalar(YamlScalar),
    Int(u32),
    List(Seq<YamlScalar>),
}

pub open spec fn scalar_text(s: YamlScalar) -> Seq<char> {
    match s {
        YamlScalar::Quoted(t) => seq!['\''] + double_quotes(t) + seq!['\''],
        YamlScalar::Plain(t) => t,
    }
}

pub open spec fn scalar_value(s: YamlScalar) -> Seq<char> {
    match s {
        YamlScalar::Quoted(t) => t,
        YamlScalar::Plain(t) => t,
    }
}

/// The lines of one `key: value` entry.
pub open spec fn item_lines(key: Seq<char>, item: YamlItem) -> Seq<Seq<char>> {
    match item {
        YamlItem::Scalar(s) => seq![key + ": "@ + scalar_text(s)],
        YamlItem::Int(n) => seq![key + ": "@ + dec(n as nat)],
        YamlItem::List(xs) => if xs.len() == 0 {
            seq![key + ": []"@]
        } else {
            seq![key + ":"@] + Seq::new(xs.len(), |i: int| "- "@ + scalar_text(xs[i]))
        },
    }
}

pub open spec fn doc_lines(d: Seq<(Seq<char>, YamlItem)>) -> Seq<Seq<char>>
    decreases d.len(),
{
    if d.len() == 0 {
        Seq::empty()
    } else {
        doc_lines(d.drop_last()) + item_lines(d.last().0, d.last().1)
    }
}

/// The document's text: its lines joined by newlines.
pub open spec fn doc_text(d: Seq<(Seq<char>, YamlItem)>) -> Seq<char> {
    join(doc_lines(d), "\n"@)
}

/// A character YAML accepts in a document (its printable set, without tab, without the
/// byte-order mark and without the characters that some readers take for line breaks).
pub open spec fn yaml_printable(c: char) -> bool {
    ||| (' ' <= c && c <= '~')
    ||| ('\u{A0}' <= c && c <= '\u{D7FF}' && c != '\u{2028}' && c != '\u{2029}')
    ||| ('\u{E000}' <= c && c <= '\u{FFFD}' && c != '\u{FEFF}')
    ||| '\u{10000}' <= c
}

pub open spec fn ascii_letter(c: char) -> bool {
    ('a' <= c && c <= 'z') || ('A' <= c && c <= 'Z')
}

/// The lower-case form is none of YAML's boolean and null words (as `to_lowercase` gives
/// it, or as its ASCII description gives it).
pub open spec fn not_keyword(t: Seq<char>) -> bool {
    ||| !yaml_keyword(t)
    ||| !(lowercase_eq(t, "true"@) || lowercase_eq(t, "false"@) || lowercase_eq(t, "null"@)
        || lowercase_eq(t, "yes"@) || lowercase_eq(t, "no"@) || lowercase_eq(t, "on"@)
        || lowercase_eq(t, "off"@))
}

/// A scalar that reads back as its own text: a quoted one of printable characters; a plain
/// one that starts with an ASCII letter, does not end with a space, holds only letters,
/// digits, spaces, `-` and `_`, and is no keyword or number.
pub open spec fn scalar_ok(s: YamlScalar) -> bool {
    match s {
        YamlScalar::Quoted(t) => forall|i: int| 0 <= i < t.len() ==> yaml_printable(#[trigger] t[i]),
        YamlScalar::Plain(t) => {
            &&& t.len() > 0
            &&& ascii_letter(t[0])
            &&& t.last() != ' '
            &&& forall|i: int|
                0 <= i < t.len() ==> yaml_printable(#[trigger] t[i]) && (plain_char(t[i]) || ascii_letter(
                    t[i],
                ) || ('0' <= t[i] && t[i] <= '9'))
            &&& !float_syntax(t)
            &&& not_keyword(t)
        },
    }
}

pub open spec fn item_ok(item: YamlItem) -> bool {
    match item {
        YamlItem::Scalar(s) => scalar_ok(s),
        YamlItem::Int(_) => true,
        YamlItem::List(xs) => xs.len() <= 1000 && forall|i: int| 0 <= i < xs.len() ==> scalar_ok(#[trigger] xs[i]),
    }
}

/// A key of lower-case letters and `_` that reads as a string (no null, boolean or
/// float word).
pub open spec fn key_ok(k: Seq<char>) -> bool {
    &&& k.len() > 0
    &&& forall|i: int| 0 <= i < k.len() ==> (('a' <= #[trigger] k[i] && k[i] <= 'z') || k[i] == '_')
    &&& k != "null"@ && k != "true"@ && k != "false"@
    &&& !float_syntax(k)
}

/// Keys of lower-case letters and `_`, each once; values of the shapes above; a text well
/// under the parser's size limits.
pub open spec fn doc_ok(d: Seq<(Seq<char>, YamlItem)>) -> bool {
    &&& d.len() > 0
    &&& d.len() <= 100
    &&& doc_text(d).len() <= 0x80_0000
    &&& forall|i: int| 0 <= i < d.len() ==> key_ok(#[trigger] d[i].0) && item_ok(d[i].1)
    &&& forall|i: int, j: int| 0 <= i < j < d.len() ==> #[trigger] d[i].0 != #[trigger] d[j].0
}

/// What a key's value reads as.
pub open spec fn item_meta(item: YamlItem) -> MetaView {
    match item {
        YamlItem::Scalar(s) => MetaView::Str(scalar_value(s)),
        YamlItem::Int(n) => MetaView::Number(dec(n as nat), Some(n as u64)),
        YamlItem::List(xs) => MetaView::List(
            Seq::new(xs.len(), |i: int| Some(scalar_value(xs[i]))),
        ),
    }
}

/// What looking `key` up in the document finds.
pub open spec fn doc_lookup(d: Seq<(Seq<char>, YamlItem)>, key: Seq<char>) -> MetaView
    decreases d.len(),
{
    if d.len() == 0 {
        MetaView::Absent
    } else if d[0].0 == key {
        item_meta(d[0].1)
    } else {
        doc_lookup(d.drop_first(), key)
    }
}

/// `text` is a document of that shape.
pub open spec fn written_doc(d: Seq<(Seq<char>, YamlItem)>, text: Seq<char>) -> bool {
    doc_ok(d) && text == doc_text(d)
}

/// Whether `serde_yml::from_str::<serde_yml::Value>` accepts `text`.
pub uninterp spec fn yaml_parses(text: Seq<char>) -> bool;

/// The message of the error that `serde_yml::from_str::<serde_yml::Value>` gives on `text`.
pub uninterp spec fn yaml_error(text: Seq<char>) -> Seq<char>;

/// What `serde_yml::Value::get(key)` finds in the document that `text` parses to.
pub uninterp spec fn yaml_lookup(text: Seq<char>, key: Seq<char>) -> MetaView;

/// Parses `yaml` with `serde_yml::from_str` into a `serde_yml::Value` and looks `key` up
/// with `Value::get`. The outcome is named: `yaml_parses` says whether the parse
/// succeeds, `yaml_error` is the error's text, and `yaml_lookup` what the lookup finds,
/// read into a `MetaValue` (strings, booleans, numbers as their text and `as_u64`, lists
/// item by item, anything else as `Other`). Of a document of the shape this crate writes
/// (`written_doc`), the parse succeeds and each key reads as what was written: the parser
/// (noyalib, behind serde_yml) resolves quoted scalars as strings and plain ones by
/// YAML 1.2's core schema, where a word that starts with a letter and is no boolean, null
/// or float word is a string, and a run of digits an integer; the limits on its input
/// (64 MB, 65 536 sequence items, 250 000 nodes) are far above `doc_ok`'s bounds.
#[verifier::external_body]
pub(crate) fn yaml_entry(yaml: &str, key: &str) -> (r: Result<MetaValue, String>)
    ensures
        match r {
            Ok(v) => {
                &&& yaml_parses(yaml@)
                &&& v@ == yaml_lookup(yaml@, key@)
                &&& forall|d: Seq<(Seq<char>, YamlItem)>|
                    #[trigger] written_doc(d, yaml@) ==> v@ == doc_lookup(d, key@)
            },
            Err(e) => {
                &&& !yaml_parses(yaml@)
                &&& e@ == yaml_error(yaml@)
                &&& forall|d: Seq<(Seq<char>, YamlItem)>| !#[trigger] written_doc(d, yaml@)
            },
        },
{
    let doc: serde_yml::Value = match serde_yml::from_str(yaml) {
        Ok(d) => d,
        Err(e) => return Err(e.to_string()),
    };
    Ok(match doc.get(key) {
        None => MetaValue::Absent,
        Some(serde_yml::Value::String(s)) => MetaValue::Str(s.clone()),
        Some(serde_yml::Value::Bool(b)) => MetaValue::Bool(*b),
        Some(serde_yml::Value::Number(n)) => MetaValue::Number(n.to_string(), n.as_u64()),
        Some(serde_yml::Value::Sequence(items)) => MetaValue::List(
            items.iter().map(|v| v.as_str().map(String::from)).collect(),
        ),
        Some(_) => MetaValue::Other,
    })
}

} // verus!
