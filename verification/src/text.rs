//! Character-level helpers shared by the markdown readers and writers.
//!
//! Text is handled as `Vec<char>` inside the library; `Seq<char>` is its model.
use vstd::prelude::*;

verus! {

broadcast use vstd::string::group_string_axioms;

// ── Character classes ────────────────────────────────────────────────

/// Unicode `White_Space`, the class that `char::is_whitespace` and `str::trim` use.
pub open spec fn is_ws(c: char) -> bool {
    ||| ('\u{9}' <= c && c <= '\u{d}')
    ||| c == ' '
    ||| c == '\u{85}'
    ||| c == '\u{a0}'
    ||| c == '\u{1680}'
    ||| ('\u{2000}' <= c && c <= '\u{200a}')
    ||| c == '\u{2028}'
    ||| c == '\u{2029}'
    ||| c == '\u{202f}'
    ||| c == '\u{205f}'
    ||| c == '\u{3000}'
}

pub fn is_whitespace(c: char) -> (b: bool)
    ensures
        b == is_ws(c),
{
    ('\u{9}' <= c && c <= '\u{d}') || c == ' ' || c == '\u{85}' || c == '\u{a0}' || c
        == '\u{1680}' || ('\u{2000}' <= c && c <= '\u{200a}') || c == '\u{2028}' || c
        == '\u{2029}' || c == '\u{202f}' || c == '\u{205f}' || c == '\u{3000}'
}

pub open spec fn is_digit(c: char) -> bool {
    '0' <= c && c <= '9'
}

pub open spec fn digit_val(c: char) -> nat {
    (c as int - '0' as int) as nat
}

pub open spec fn digit_char(d: nat) -> char {
    ((d + '0' as int) as u8) as char
}

/// How many of the first characters of `s` satisfy `p`.
pub open spec fn run_len(s: Seq<char>, p: spec_fn(char) -> bool) -> nat
    decreases s.len(),
{
    if s.len() > 0 && p(s[0]) {
        1 + run_len(s.drop_first(), p)
    } else {
        0
    }
}

/// The end of the run of white space that starts at `from`.
pub fn ws_end(s: &Vec<char>, from: usize) -> (r: usize)
    requires
        from <= s.len(),
    ensures
        from <= r <= s.len(),
        r - from == run_len(s@.skip(from as int), |c: char| is_ws(c)),
{
    let mut i = from;
    while i < s.len() && is_whitespace(s[i])
        invariant
            from <= i <= s.len(),
            (i - from) + run_len(s@.skip(i as int), |c: char| is_ws(c)) == run_len(
                s@.skip(from as int),
                |c: char| is_ws(c),
            ),
        decreases s.len() - i,
    {
        assert(s@.skip(i as int).drop_first() =~= s@.skip(i + 1));
        i = i + 1;
    }
    i
}

// ── Trimming ─────────────────────────────────────────────────────────

pub open spec fn trim_start(s: Seq<char>) -> Seq<char>
    decreases s.len(),
{
    if s.len() > 0 && is_ws(s[0]) {
        trim_start(s.drop_first())
    } else {
        s
    }
}

pub open spec fn trim_end(s: Seq<char>) -> Seq<char>
    decreases s.len(),
{
    if s.len() > 0 && is_ws(s.last()) {
        trim_end(s.drop_last())
    } else {
        s
    }
}

/// `str::trim`: white space removed at both ends.
pub open spec fn trim(s: Seq<char>) -> Seq<char> {
    trim_end(trim_start(s))
}

/// A sequence that `trim` leaves as it is.
pub open spec fn is_trimmed(s: Seq<char>) -> bool {
    s.len() == 0 || (!is_ws(s[0]) && !is_ws(s.last()))
}

/// `trim_start_matches(c)`: every leading `c` removed.
pub open spec fn strip_leading(s: Seq<char>, c: char) -> Seq<char>
    decreases s.len(),
{
    if s.len() > 0 && s[0] == c {
        strip_leading(s.drop_first(), c)
    } else {
        s
    }
}

pub proof fn lemma_trim_start_bounds(s: Seq<char>)
    ensures
        trim_start(s).len() <= s.len(),
        trim_start(s) == s.subrange(s.len() - trim_start(s).len(), s.len() as int),
        trim_start(s).len() > 0 ==> !is_ws(trim_start(s)[0]),
    decreases s.len(),
{
    if s.len() > 0 && is_ws(s[0]) {
        lemma_trim_start_bounds(s.drop_first());
        assert(s.drop_first().subrange(
            s.drop_first().len() - trim_start(s).len(),
            s.drop_first().len() as int,
        ) =~= s.subrange(s.len() - trim_start(s).len(), s.len() as int));
    } else {
        assert(s.subrange(0, s.len() as int) =~= s);
    }
}

pub proof fn lemma_trim_end_bounds(s: Seq<char>)
    ensures
        trim_end(s).len() <= s.len(),
        trim_end(s) == s.subrange(0, trim_end(s).len() as int),
        trim_end(s).len() > 0 ==> !is_ws(trim_end(s).last()),
    decreases s.len(),
{
    if s.len() > 0 && is_ws(s.last()) {
        lemma_trim_end_bounds(s.drop_last());
        assert(s.drop_last().subrange(0, trim_end(s).len() as int) =~= s.subrange(
            0,
            trim_end(s).len() as int,
        ));
    } else {
        assert(s.subrange(0, s.len() as int) =~= s);
    }
}

/// Text that starts and ends with no white space is its own trim.
pub proof fn lemma_trim_trimmed(s: Seq<char>)
    requires
        is_trimmed(s),
    ensures
        trim(s) == s,
        trim_start(s) == s,
        trim_end(s) == s,
{
}

/// The position where `trim_start` of `s[lo..hi]` begins.
pub fn trim_start_from(s: &Vec<char>, lo: usize, hi: usize) -> (r: usize)
    requires
        lo <= hi <= s.len(),
    ensures
        lo <= r <= hi,
        s@.subrange(r as int, hi as int) == trim_start(s@.subrange(lo as int, hi as int)),
{
    let mut i = lo;
    while i < hi && is_whitespace(s[i])
        invariant
            lo <= i <= hi <= s.len(),
            trim_start(s@.subrange(i as int, hi as int)) == trim_start(
                s@.subrange(lo as int, hi as int),
            ),
        decreases hi - i,
    {
        assert(s@.subrange(i as int, hi as int).drop_first() =~= s@.subrange(
            i + 1,
            hi as int,
        ));
        i = i + 1;
    }
    i
}

/// The position where `trim_end` of `s[lo..hi]` ends.
pub fn trim_end_to(s: &Vec<char>, lo: usize, hi: usize) -> (r: usize)
    requires
        lo <= hi <= s.len(),
    ensures
        lo <= r <= hi,
        s@.subrange(lo as int, r as int) == trim_end(s@.subrange(lo as int, hi as int)),
{
    let mut j = hi;
    while j > lo && is_whitespace(s[j - 1])
        invariant
            lo <= j <= hi <= s.len(),
            trim_end(s@.subrange(lo as int, j as int)) == trim_end(
                s@.subrange(lo as int, hi as int),
            ),
        decreases j - lo,
    {
        assert(s@.subrange(lo as int, j as int).drop_last() =~= s@.subrange(
            lo as int,
            j - 1,
        ));
        j = j - 1;
    }
    j
}

/// The bounds of `trim(s[lo..hi])` inside `s`.
pub fn trim_range(s: &Vec<char>, lo: usize, hi: usize) -> (r: (usize, usize))
    requires
        lo <= hi <= s.len(),
    ensures
        lo <= r.0 <= r.1 <= hi,
        s@.subrange(r.0 as int, r.1 as int) == trim(s@.subrange(lo as int, hi as int)),
{
    let a = trim_start_from(s, lo, hi);
    let b = trim_end_to(s, a, hi);
    (a, b)
}

/// `s[lo..hi]`, copied.
pub fn slice(s: &Vec<char>, lo: usize, hi: usize) -> (r: Vec<char>)
    requires
        lo <= hi <= s.len(),
    ensures
        r@ == s@.subrange(lo as int, hi as int),
{
    let mut r: Vec<char> = Vec::new();
    let mut i = lo;
    while i < hi
        invariant
            lo <= i <= hi <= s.len(),
            r@ == s@.subrange(lo as int, i as int),
        decreases hi - i,
    {
        r.push(s[i]);
        i = i + 1;
        assert(r@ =~= s@.subrange(lo as int, i as int));
    }
    r
}

/// `trim(s)`, copied.
pub fn trimmed(s: &Vec<char>) -> (r: Vec<char>)
    ensures
        r@ == trim(s@),
{
    let (a, b) = trim_range(s, 0, s.len());
    assert(s@.subrange(0, s@.len() as int) =~= s@);
    slice(s, a, b)
}

/// `s[lo..hi]` with every leading `c` removed: the start position.
pub fn strip_leading_from(s: &Vec<char>, lo: usize, hi: usize, c: char) -> (r: usize)
    requires
        lo <= hi <= s.len(),
    ensures
        lo <= r <= hi,
        s@.subrange(r as int, hi as int) == strip_leading(s@.subrange(lo as int, hi as int), c),
{
    let mut i = lo;
    while i < hi && s[i] == c
        invariant
            lo <= i <= hi <= s.len(),
            strip_leading(s@.subrange(i as int, hi as int), c) == strip_leading(
                s@.subrange(lo as int, hi as int),
                c,
            ),
        decreases hi - i,
    {
        assert(s@.subrange(i as int, hi as int).drop_first() =~= s@.subrange(
            i + 1,
            hi as int,
        ));
        i = i + 1;
    }
    i
}

// ── Building text ────────────────────────────────────────────────────

/// The characters of `s`, in order.
pub fn str_chars(s: &str) -> (r: Vec<char>)
    ensures
        r@ == s@,
{
    let mut r: Vec<char> = Vec::new();
    for c in it: s.chars()
        invariant
            r@ == it.seq().take(it.index() as int),
            it.seq() == s@,
    {
        r.push(c);
    }
    r
}

/// A `String` holding the characters of `v` (std's `FromIterator<&char> for String`).
#[verifier::external_body]
pub(crate) fn string_from_chars(v: &Vec<char>) -> (r: String)
    ensures
        r@ == v@,
{
    v.iter().collect()
}

/// Appends the characters of `s` to `out`.
pub fn push_str(out: &mut Vec<char>, s: &str)
    ensures
        final(out)@ == old(out)@ + s@,
{
    let cs = str_chars(s);
    push_chars(out, &cs);
}

/// Appends `v` to `out`.
pub fn push_chars(out: &mut Vec<char>, v: &Vec<char>)
    ensures
        final(out)@ == old(out)@ + v@,
{
    let ghost start = out@;
    let mut i: usize = 0;
    while i < v.len()
        invariant
            i <= v.len(),
            out@ == start + v@.subrange(0, i as int),
        decreases v.len() - i,
    {
        out.push(v[i]);
        i = i + 1;
        assert(out@ =~= start + v@.subrange(0, i as int));
    }
    assert(v@.subrange(0, v@.len() as int) =~= v@);
}

/// Appends the characters of `s` to `out`.
pub fn push_string(out: &mut Vec<char>, s: &String)
    ensures
        final(out)@ == old(out)@ + s@,
{
    push_str(out, s.as_str());
}

/// A character vector's deep view is its view.
pub proof fn lemma_chars_deep_view(v: &Vec<char>)
    ensures
        v.deep_view() == v@,
{
    assert(v.deep_view() =~= v@);
}

// ── Lines ────────────────────────────────────────────────────────

/// `s.split(c)`: the pieces between occurrences of `c` (always at least one).
pub open spec fn split_on(s: Seq<char>, c: char) -> Seq<Seq<char>>
    decreases s.len(),
{
    if s.len() == 0 {
        seq![Seq::<char>::empty()]
    } else {
        let p = split_on(s.drop_last(), c);
        if s.last() == c {
            p.push(Seq::<char>::empty())
        } else {
            p.update(p.len() - 1, p.last().push(s.last()))
        }
    }
}

pub proof fn lemma_split_on_nonempty(s: Seq<char>, c: char)
    ensures
        split_on(s, c).len() >= 1,
    decreases s.len(),
{
    if s.len() > 0 {
        lemma_split_on_nonempty(s.drop_last(), c);
    }
}

/// `str::lines`: pieces split at `\n`, a final empty piece dropped, and a `\r` that stands
/// before a `\n` removed.
pub open spec fn lines(s: Seq<char>) -> Seq<Seq<char>> {
    if s.len() == 0 {
        Seq::<Seq<char>>::empty()
    } else {
        let raw = split_on(s, '\n');
        let body = if s.last() == '\n' {
            raw.drop_last()
        } else {
            raw
        };
        Seq::new(
            body.len(),
            |i: int|
                if (i < body.len() - 1 || s.last() == '\n') && body[i].len() > 0 && body[i].last()
                    == '\r' {
                    body[i].drop_last()
                } else {
                    body[i]
                },
        )
    }
}

/// The pieces of `s.split(c)`.
pub fn split_char(s: &Vec<char>, c: char) -> (r: Vec<Vec<char>>)
    ensures
        r.deep_view() == split_on(s@, c),
{
    let mut done: Vec<Vec<char>> = Vec::new();
    let mut cur: Vec<char> = Vec::new();
    let mut i: usize = 0;
    while i < s.len()
        invariant
            i <= s.len(),
            done.deep_view().push(cur@) == split_on(s@.subrange(0, i as int), c),
        decreases s.len() - i,
    {
        let ghost pre = s@.subrange(0, i as int);
        let ghost nxt = s@.subrange(0, i + 1);
        assert(nxt.drop_last() =~= pre);
        proof {
            lemma_split_on_nonempty(pre, c);
        }
        assert(nxt.last() == s@[i as int]);
        if s[i] == c {
            let ghost cv = cur@;
            let ghost dv = done.deep_view();
            proof { lemma_chars_deep_view(&cur); }
            done.push(cur);
            assert(done.deep_view() =~= dv.push(cv));
            cur = Vec::new();
            assert(done.deep_view().push(cur@) =~= split_on(nxt, c));
        } else {
            let ghost old_cur = cur@;
            let ghost p = split_on(pre, c);
            assert(p == done.deep_view().push(old_cur));
            cur.push(s[i]);
            assert(cur@ == old_cur.push(s@[i as int]));
            assert(p.last() == old_cur);
            assert(done.deep_view().push(cur@) =~= split_on(nxt, c));
        }
        i = i + 1;
    }
    assert(s@.subrange(0, s@.len() as int) =~= s@);
    let ghost cv = cur@;
    let ghost dv = done.deep_view();
    proof { lemma_chars_deep_view(&cur); }
    done.push(cur);
    assert(done.deep_view() =~= dv.push(cv));
    done
}

/// The pieces of `s.lines()`.
pub fn lines_of(s: &Vec<char>) -> (r: Vec<Vec<char>>)
    ensures
        r.deep_view() == lines(s@),
{
    if s.len() == 0 {
        let r: Vec<Vec<char>> = Vec::new();
        assert(r.deep_view() =~= lines(s@));
        return r;
    }
    let raw = split_char(s, '\n');
    proof {
        lemma_split_on_nonempty(s@, '\n');
    }
    let ends_nl = s[s.len() - 1] == '\n';
    let n = if ends_nl {
        raw.len() - 1
    } else {
        raw.len()
    };
    let ghost body = if ends_nl {
        raw.deep_view().drop_last()
    } else {
        raw.deep_view()
    };
    let mut r: Vec<Vec<char>> = Vec::new();
    let mut i: usize = 0;
    while i < n
        invariant
            i <= n,
            n == body.len(),
            n <= raw.len(),
            raw.deep_view() == split_on(s@, '\n'),
            s@.len() > 0,
            ends_nl == (s@.last() == '\n'),
            body == (if ends_nl {
                raw.deep_view().drop_last()
            } else {
                raw.deep_view()
            }),
            r.len() == i,
            forall|k: int|
                0 <= k < i ==> (#[trigger] r.deep_view()[k]) == lines(s@)[k],
        decreases n - i,
    {
        let piece = &raw[i];
        assert(piece@ == body[i as int]);
        let ghost old_r = r.deep_view();
        let strip = (i + 1 < n || ends_nl) && piece.len() > 0 && piece[piece.len() - 1] == '\r';
        if strip {
            let p = slice(piece, 0, piece.len() - 1);
            assert(p@ =~= body[i as int].drop_last());
            r.push(p);
        } else {
            let p = slice(piece, 0, piece.len());
            assert(p@ =~= body[i as int]);
            r.push(p);
        }
        assert(r.deep_view() =~= old_r.push(r.deep_view()[i as int]));
        assert(r.deep_view()[i as int] == lines(s@)[i as int]);
        i = i + 1;
    }
    assert(r.deep_view() =~= lines(s@));
    r
}

/// Pieces joined with `sep` between them (`[..].join(sep)`).
pub open spec fn join(parts: Seq<Seq<char>>, sep: Seq<char>) -> Seq<char>
    decreases parts.len(),
{
    if parts.len() == 0 {
        Seq::<char>::empty()
    } else if parts.len() == 1 {
        parts[0]
    } else {
        join(parts.drop_last(), sep) + sep + parts.last()
    }
}

pub fn push_joined(out: &mut Vec<char>, parts: &Vec<Vec<char>>, sep: &Vec<char>)
    ensures
        final(out)@ == old(out)@ + join(parts.deep_view(), sep@),
{
    let ghost start = out@;
    let mut i: usize = 0;
    while i < parts.len()
        invariant
            i <= parts.len(),
            out@ == start + join(parts.deep_view().subrange(0, i as int), sep@),
        decreases parts.len() - i,
    {
        let ghost pre = parts.deep_view().subrange(0, i as int);
        let ghost nxt = parts.deep_view().subrange(0, i + 1);
        assert(nxt.drop_last() =~= pre);
        if i > 0 {
            push_chars(out, sep);
        }
        push_chars(out, &parts[i]);
        assert(out@ =~= start + join(nxt, sep@));
        i = i + 1;
    }
    assert(parts.deep_view().subrange(0, parts.len() as int) =~= parts.deep_view());
}

// ── Decimal numbers ──────────────────────────────────────────────────

/// The decimal digits of `n`, as `{}` formats an unsigned integer.
pub open spec fn dec(n: nat) -> Seq<char>
    decreases n,
{
    if n < 10 {
        seq![digit_char(n)]
    } else {
        dec(n / 10).push(digit_char(n % 10))
    }
}

/// Appends the decimal digits of `n` to `out`.
pub fn push_dec(out: &mut Vec<char>, n: u64)
    ensures
        final(out)@ == old(out)@ + dec(n as nat),
    decreases n,
{
    if n >= 10 {
        push_dec(out, n / 10);
    }
    let d = n % 10;
    out.push(((d as u8) + ('0' as u8)) as char);
    proof {
        assert(digit_char(d as nat) == ((d as u8) + ('0' as u8)) as char);
        if n < 10 {
            assert(dec(n as nat) == seq![digit_char(n as nat)]);
        }
    }
}

/// Appends `n` in decimal, zero-padded on the left to `width` digits.
pub open spec fn dec_pad(n: nat, width: nat) -> Seq<char> {
    Seq::new((if dec(n).len() < width { width - dec(n).len() } else { 0 }) as nat, |i: int| '0')
        + dec(n)
}

pub fn push_dec_pad(out: &mut Vec<char>, n: u64, width: usize)
    ensures
        final(out)@ == old(out)@ + dec_pad(n as nat, width as nat),
{
    let mut digits: Vec<char> = Vec::new();
    push_dec(&mut digits, n);
    let ghost start = out@;
    let pad: usize = if digits.len() < width { width - digits.len() } else { 0 };
    let mut i: usize = 0;
    while i < pad
        invariant
            i <= pad,
            out@ == start + Seq::new(i as nat, |k: int| '0'),
        decreases pad - i,
    {
        out.push('0');
        i = i + 1;
        assert(out@ =~= start + Seq::new(i as nat, |k: int| '0'));
    }
    push_chars(out, &digits);
    assert(out@ =~= start + dec_pad(n as nat, width as nat));
}

/// The number the ASCII digits of `s` spell.
pub open spec fn digits_value(s: Seq<char>) -> nat
    decreases s.len(),
{
    if s.len() == 0 {
        0
    } else {
        digits_value(s.drop_last()) * 10 + digit_val(s.last())
    }
}

pub open spec fn all_digits(s: Seq<char>) -> bool {
    forall|i: int| 0 <= i < s.len() ==> is_digit(#[trigger] s[i])
}

/// `str::parse::<u32>()`: an optional `+`, then one or more ASCII digits whose value fits.
pub open spec fn parse_u32(s: Seq<char>) -> Option<u32> {
    let d = if s.len() > 0 && s[0] == '+' {
        s.drop_first()
    } else {
        s
    };
    if d.len() == 0 || !all_digits(d) || digits_value(d) > u32::MAX {
        None
    } else {
        Some(digits_value(d) as u32)
    }
}

proof fn lemma_digits_value_grows(s: Seq<char>, k: int)
    requires
        0 <= k <= s.len(),
    ensures
        digits_value(s.subrange(0, k)) <= digits_value(s),
    decreases s.len() - k,
{
    if k < s.len() {
        lemma_digits_value_grows(s, k + 1);
        assert(s.subrange(0, k + 1).drop_last() =~= s.subrange(0, k));
    } else {
        assert(s.subrange(0, k) =~= s);
    }
}

/// `s[lo..hi].parse::<u32>()`.
pub fn parse_u32_range(s: &Vec<char>, lo: usize, hi: usize) -> (r: Option<u32>)
    requires
        lo <= hi <= s.len(),
    ensures
        r == parse_u32(s@.subrange(lo as int, hi as int)),
{
    let ghost whole = s@.subrange(lo as int, hi as int);
    let mut start = lo;
    if lo < hi && s[lo] == '+' {
        start = lo + 1;
    }
    let ghost d = s@.subrange(start as int, hi as int);
    assert(d =~= (if whole.len() > 0 && whole[0] == '+' {
        whole.drop_first()
    } else {
        whole
    }));
    if start == hi {
        return None;
    }
    let mut acc: u64 = 0;
    let mut i = start;
    while i < hi
        invariant
            start <= i <= hi <= s.len(),
            whole == s@.subrange(lo as int, hi as int),
            d == s@.subrange(start as int, hi as int),
            d == (if whole.len() > 0 && whole[0] == '+' {
                whole.drop_first()
            } else {
                whole
            }),
            d.len() > 0,
            all_digits(s@.subrange(start as int, i as int)),
            acc == digits_value(s@.subrange(start as int, i as int)),
            acc <= u32::MAX,
        decreases hi - i,
    {
        let c = s[i];
        if !('0' <= c && c <= '9') {
            assert(d[i - start] == c);
            assert(!is_digit(d[i - start]));
            return None;
        }
        let ghost prev = s@.subrange(start as int, i as int);
        let ghost next = s@.subrange(start as int, i + 1);
        assert(next.drop_last() =~= prev);
        assert(next.last() == c);
        assert(digit_val(c) == (c as u8 - '0' as u8) as nat);
        assert(digits_value(next) == digits_value(prev) * 10 + digit_val(c));
        acc = acc * 10 + ((c as u8 - '0' as u8) as u64);
        i = i + 1;
        assert(all_digits(next)) by {
            assert forall|k: int| 0 <= k < next.len() implies is_digit(#[trigger] next[k]) by {
                if k < prev.len() {
                    assert(next[k] == prev[k]);
                }
            }
        }
        if acc > 0xffff_ffff {
            proof {
                assert(next =~= d.subrange(0, i - start));
                lemma_digits_value_grows(d, i - start);
            }
            return None;
        }
    }
    assert(s@.subrange(start as int, hi as int) =~= d);
    Some(acc as u32)
}

/// `str::parse::<u64>()`: an optional `+`, then one or more ASCII digits whose value fits.
pub open spec fn parse_u64(s: Seq<char>) -> Option<u64> {
    let d = if s.len() > 0 && s[0] == '+' {
        s.drop_first()
    } else {
        s
    };
    if d.len() == 0 || !all_digits(d) || digits_value(d) > u64::MAX {
        None
    } else {
        Some(digits_value(d) as u64)
    }
}

/// `s.parse::<u64>().ok()`.
pub fn parse_u64_text(s: &str) -> (r: Option<u64>)
    ensures
        r == parse_u64(s@),
{
    let v = str_chars(s);
    let ghost whole = v@;
    let n = v.len();
    let mut start: usize = 0;
    if n > 0 && v[0] == '+' {
        start = 1;
    }
    let ghost d = v@.subrange(start as int, n as int);
    assert(d =~= (if whole.len() > 0 && whole[0] == '+' {
        whole.drop_first()
    } else {
        whole
    }));
    if start == n {
        return None;
    }
    let mut acc: u128 = 0;
    let mut i = start;
    while i < n
        invariant
            start <= i <= n == v.len(),
            whole == v@,
            v@ == s@,
            d == v@.subrange(start as int, n as int),
            d == (if whole.len() > 0 && whole[0] == '+' {
                whole.drop_first()
            } else {
                whole
            }),
            d.len() > 0,
            all_digits(v@.subrange(start as int, i as int)),
            acc == digits_value(v@.subrange(start as int, i as int)),
            acc <= u64::MAX,
        decreases n - i,
    {
        let c = v[i];
        if !('0' <= c && c <= '9') {
            assert(d[i - start] == c);
            assert(!is_digit(d[i - start]));
            return None;
        }
        let ghost prev = v@.subrange(start as int, i as int);
        let ghost next = v@.subrange(start as int, i + 1);
        assert(next.drop_last() =~= prev);
        assert(next.last() == c);
        assert(digit_val(c) == (c as u8 - '0' as u8) as nat);
        assert(digits_value(next) == digits_value(prev) * 10 + digit_val(c));
        acc = acc * 10 + ((c as u8 - '0' as u8) as u128);
        i = i + 1;
        assert(all_digits(next)) by {
            assert forall|k: int| 0 <= k < next.len() implies is_digit(#[trigger] next[k]) by {
                if k < prev.len() {
                    assert(next[k] == prev[k]);
                }
            }
        }
        if acc > 0xffff_ffff_ffff_ffff {
            proof {
                assert(next =~= d.subrange(0, i - start));
                lemma_digits_value_grows(d, i - start);
            }
            return None;
        }
    }
    assert(v@.subrange(start as int, n as int) =~= d);
    Some(acc as u64)
}

// ── Case ─────────────────────────────────────────────────────────

/// What `str::to_lowercase` returns for `s`: Unicode's lower-case mapping, character by
/// character (with the final-sigma rule).
pub uninterp spec fn lowercase_of(s: Seq<char>) -> Seq<char>;

pub open spec fn ascii_lower_char(c: char) -> char {
    if 'A' <= c && c <= 'Z' {
        ((c as u8) + 32) as char
    } else {
        c
    }
}

pub open spec fn is_ascii_seq(s: Seq<char>) -> bool {
    forall|i: int| 0 <= i < s.len() ==> (#[trigger] s[i] as u32) < 128
}

/// `char::to_lowercase` maps `c` to the ASCII character `t` alone: `t` itself where it is
/// not an upper-case letter, an upper-case letter to its lower-case form, and the Kelvin
/// sign U+212A to `k`.
pub open spec fn lowers_to(c: char, t: char) -> bool {
    ||| (c == t && !('A' <= t && t <= 'Z'))
    ||| ('a' <= t && t <= 'z' && (c as u32) as int + 32 == (t as u32) as int)
    ||| (t == 'k' && c == '\u{212A}')
}

/// `s.to_lowercase() == t`, for an all-ASCII `t`.
pub open spec fn lowercase_eq(s: Seq<char>, t: Seq<char>) -> bool {
    &&& s.len() == t.len()
    &&& forall|i: int| 0 <= i < s.len() ==> lowers_to(#[trigger] s[i], t[i])
}

/// Calls `str::to_lowercase`. The result is named `lowercase_of`. Unicode's lower-case
/// mapping sends no character to the empty text and no character to an upper-case ASCII
/// letter; the only characters whose mapping is a single ASCII character are the ASCII
/// characters (an upper-case letter to its lower-case form, any other to itself) and the
/// Kelvin sign (to `k`), and no character's mapping of several characters is all ASCII;
/// so the result equals an ASCII text `t` exactly when `lowercase_eq(s, t)`.
#[verifier::external_body]
pub(crate) fn to_lowercase(s: &str) -> (r: String)
    ensures
        r@ == lowercase_of(s@),
        forall|t: Seq<char>| #[trigger] is_ascii_seq(t) ==> (r@ == t <==> lowercase_eq(s@, t)),
{
    s.to_lowercase()
}

// ── Comparing ────────────────────────────────────────────────────────

/// `s[lo..]` begins with `p`.
pub open spec fn has_prefix_at(s: Seq<char>, lo: int, p: Seq<char>) -> bool {
    &&& 0 <= lo
    &&& lo + p.len() <= s.len()
    &&& s.subrange(lo, lo + p.len()) == p
}

pub fn starts_with_at(s: &Vec<char>, lo: usize, hi: usize, p: &Vec<char>) -> (b: bool)
    requires
        lo <= hi <= s.len(),
    ensures
        b == has_prefix_at(s@.subrange(0, hi as int), lo as int, p@),
{
    if p.len() > hi - lo {
        return false;
    }
    let mut i: usize = 0;
    while i < p.len()
        invariant
            i <= p.len(),
            lo + p.len() <= hi <= s.len(),
            forall|k: int| 0 <= k < i ==> s@[lo + k] == p@[k],
        decreases p.len() - i,
    {
        if s[lo + i] != p[i] {
            assert(s@.subrange(0, hi as int).subrange(lo as int, lo + p@.len())[i as int]
                != p@[i as int]);
            return false;
        }
        i = i + 1;
    }
    assert(s@.subrange(0, hi as int).subrange(lo as int, lo + p@.len()) =~= p@);
    true
}

/// `s[lo..hi]` equals `t`.
pub fn range_eq(s: &Vec<char>, lo: usize, hi: usize, t: &Vec<char>) -> (b: bool)
    requires
        lo <= hi <= s.len(),
    ensures
        b == (s@.subrange(lo as int, hi as int) == t@),
{
    if hi - lo != t.len() {
        return false;
    }
    let mut i: usize = 0;
    while i < t.len()
        invariant
            i <= t.len(),
            hi - lo == t.len(),
            hi <= s.len(),
            forall|k: int| 0 <= k < i ==> s@[lo + k] == t@[k],
        decreases t.len() - i,
    {
        if s[lo + i] != t[i] {
            assert(s@.subrange(lo as int, hi as int)[i as int] != t@[i as int]);
            return false;
        }
        i = i + 1;
    }
    assert(s@.subrange(lo as int, hi as int) =~= t@);
    true
}

/// The first position at or after `from` where `p` occurs in `s`, if any.
pub open spec fn find_from(s: Seq<char>, from: int, p: Seq<char>) -> Option<int>
    decreases s.len() + 1 - from,
{
    if from < 0 || from + p.len() > s.len() {
        None
    } else if s.subrange(from, from + p.len()) == p {
        Some(from)
    } else {
        find_from(s, from + 1, p)
    }
}

pub fn find_at(s: &Vec<char>, from: usize, p: &Vec<char>) -> (r: Option<usize>)
    requires
        from <= s.len(),
    ensures
        match (r, find_from(s@, from as int, p@)) {
            (Some(a), Some(b)) => a == b,
            (None, None) => true,
            _ => false,
        },
        r matches Some(i) ==> from <= i && i + p.len() <= s.len(),
{
    if p.len() == 0 {
        assert(s@.subrange(from as int, from as int) =~= p@);
        return Some(from);
    }
    let mut i = from;
    while p.len() <= s.len() - i
        invariant
            from <= i <= s.len(),
            p.len() > 0,
            find_from(s@, i as int, p@) == find_from(s@, from as int, p@),
        decreases s.len() - i,
    {
        if range_eq(s, i, i + p.len(), p) {
            return Some(i);
        }
        i = i + 1;
    }
    None
}

/// Searching `s` from `lo + k` is searching `s[lo..]` from `k`, shifted by `lo`.
pub proof fn lemma_find_from_skip(s: Seq<char>, lo: int, k: int, p: Seq<char>)
    requires
        0 <= lo <= s.len(),
        0 <= k,
    ensures
        find_from(s, lo + k, p) == (match find_from(s.skip(lo), k, p) {
            Some(i) => Some(i + lo),
            None => None,
        }),
    decreases s.len() + 1 - (lo + k),
{
    if lo + k + p.len() <= s.len() {
        assert(s.skip(lo).subrange(k, k + p.len()) =~= s.subrange(lo + k, lo + k + p.len()));
        lemma_find_from_skip(s, lo, k + 1, p);
    }
}

/// A found position lies inside the text.
pub proof fn lemma_find_from_range(s: Seq<char>, from: int, p: Seq<char>)
    ensures
        find_from(s, from, p) matches Some(i) ==> from <= i && i + p.len() <= s.len() && s.subrange(
            i,
            i + p.len(),
        ) == p,
    decreases s.len() + 1 - from,
{
    if 0 <= from && from + p.len() <= s.len() && s.subrange(from, from + p.len()) != p {
        lemma_find_from_range(s, from + 1, p);
    }
}

/// `s[lo..hi]` begins with `p`.
pub fn range_starts_with(s: &Vec<char>, lo: usize, hi: usize, p: &Vec<char>) -> (b: bool)
    requires
        lo <= hi <= s.len(),
    ensures
        b == has_prefix_at(s@.subrange(lo as int, hi as int), 0, p@),
{
    if p.len() > hi - lo {
        return false;
    }
    let b = range_eq(s, lo, lo + p.len(), p);
    assert(s@.subrange(lo as int, hi as int).subrange(0, p@.len() as int) =~= s@.subrange(
        lo as int,
        lo + p@.len(),
    ));
    b
}

// ── Facts used by the round-trip proofs ──────────────────────────────

/// Each line followed by a newline.
pub open spec fn terminated(ls: Seq<Seq<char>>) -> Seq<char>
    decreases ls.len(),
{
    if ls.len() == 0 {
        Seq::<char>::empty()
    } else {
        terminated(ls.drop_last()) + ls.last() + seq!['\n']
    }
}

pub proof fn lemma_terminated_concat(a: Seq<Seq<char>>, b: Seq<Seq<char>>)
    ensures
        terminated(a + b) == terminated(a) + terminated(b),
    decreases b.len(),
{
    if b.len() == 0 {
        assert(a + b =~= a);
        assert(terminated(b) =~= Seq::<char>::empty());
        assert(terminated(a) + terminated(b) =~= terminated(a));
    } else {
        assert((a + b).drop_last() =~= a + b.drop_last());
        lemma_terminated_concat(a, b.drop_last());
        assert(terminated(a + b) =~= terminated(a) + terminated(b));
    }
}

/// No `c` in `s`.
pub open spec fn lacks(s: Seq<char>, c: char) -> bool {
    forall|i: int| 0 <= i < s.len() ==> #[trigger] s[i] != c
}

pub proof fn lemma_split_on_append_pub(a: Seq<char>, x: Seq<char>, c: char)
    requires
        lacks(x, c),
    ensures
        split_on(a + x, c) == split_on(a, c).update(
            split_on(a, c).len() - 1,
            split_on(a, c).last() + x,
        ),
    decreases x.len(),
{
    lemma_split_on_nonempty(a, c);
    if x.len() == 0 {
        assert(a + x =~= a);
        assert(split_on(a, c).last() + x =~= split_on(a, c).last());
        assert(split_on(a, c).update(split_on(a, c).len() - 1, split_on(a, c).last())
            =~= split_on(a, c));
    } else {
        let x0 = x.drop_last();
        assert(lacks(x0, c)) by {
            assert forall|i: int| 0 <= i < x0.len() implies #[trigger] x0[i] != c by {
                assert(x0[i] == x[i]);
            }
        }
        lemma_split_on_append_pub(a, x0, c);
        assert((a + x).drop_last() =~= a + x0);
        assert((a + x).last() == x.last());
        assert(x.last() == x[x.len() - 1]);
        lemma_split_on_nonempty(a + x0, c);
        let sa = split_on(a, c);
        let pp = split_on(a + x0, c);
        assert(pp.len() == sa.len());
        assert(pp.last() == sa.last() + x0);
        assert(x[x.len() - 1] != c);
        assert(sa.last() + x =~= (sa.last() + x0).push(x.last()));
        assert(split_on(a + x, c) == pp.update(pp.len() - 1, pp.last().push((a + x).last())));
        assert(split_on(a + x, c) =~= split_on(a, c).update(
            split_on(a, c).len() - 1,
            split_on(a, c).last() + x,
        ));
    }
}

/// Lines free of line breaks, each followed by `\n`, split back into those lines.
pub proof fn lemma_split_terminated(ls: Seq<Seq<char>>)
    requires
        forall|i: int| 0 <= i < ls.len() ==> lacks(#[trigger] ls[i], '\n'),
    ensures
        split_on(terminated(ls), '\n') == ls.push(Seq::<char>::empty()),
    decreases ls.len(),
{
    if ls.len() == 0 {
        assert(split_on(Seq::<char>::empty(), '\n') =~= seq![Seq::<char>::empty()]);
        assert(ls.push(Seq::<char>::empty()) =~= seq![Seq::<char>::empty()]);
    } else {
        let p = ls.drop_last();
        assert forall|i: int| 0 <= i < p.len() implies lacks(#[trigger] p[i], '\n') by {
            assert(p[i] == ls[i]);
        }
        lemma_split_terminated(p);
        let a = terminated(p);
        let x = ls.last();
        assert(lacks(x, '\n')) by {
            assert(x == ls[ls.len() - 1]);
        }
        lemma_split_on_append_pub(a, x, '\n');
        let ax = a + x;
        assert((ax + seq!['\n']).drop_last() =~= ax);
        assert(terminated(ls) == ax + seq!['\n']);
        assert(split_on(terminated(ls), '\n') =~= ls.push(Seq::<char>::empty()));
    }
}

/// `lines` of such text gives back the lines, when none ends in `\r`.
pub proof fn lemma_lines_terminated(ls: Seq<Seq<char>>)
    requires
        forall|i: int| 0 <= i < ls.len() ==> lacks(#[trigger] ls[i], '\n'),
        forall|i: int|
            0 <= i < ls.len() ==> (#[trigger] ls[i]).len() == 0 || ls[i].last() != '\r',
    ensures
        lines(terminated(ls)) == ls,
{
    if ls.len() == 0 {
        assert(lines(terminated(ls)) =~= ls);
    } else {
        lemma_split_terminated(ls);
        let s = terminated(ls);
        assert(s == terminated(ls.drop_last()) + ls.last() + seq!['\n']);
        assert(s.last() == '\n');
        assert(split_on(s, '\n').drop_last() =~= ls);
        assert(lines(s) =~= ls);
    }
}

/// The decimal digits of `n` are digits, start with no `+`, and read back as `n`.
pub proof fn lemma_digit_char(k: nat)
    requires
        k < 10,
    ensures
        digit_val(digit_char(k)) == k,
        is_digit(digit_char(k)),
{
    assert(((k + '0' as int) as u8) as char as int == k + 48);
}

pub proof fn lemma_dec_digits(n: nat)
    ensures
        dec(n).len() >= 1,
        all_digits(dec(n)),
        digits_value(dec(n)) == n,
        is_digit(dec(n)[0]),
    decreases n,
{
    lemma_digit_char(n % 10);
    if n < 10 {
        assert(n % 10 == n);
        let d1 = dec(n);
        assert(d1.drop_last() =~= Seq::<char>::empty());
        assert(digits_value(Seq::<char>::empty()) == 0);
        assert(digits_value(d1) == digits_value(d1.drop_last()) * 10 + digit_val(d1.last()));
    }
    if n >= 10 {
        lemma_dec_digits(n / 10);
        let d = dec(n / 10);
        assert((n / 10) * 10 + n % 10 == n);
        assert(dec(n).last() == digit_char(n % 10));
        assert(digits_value(dec(n)) == digits_value(dec(n).drop_last()) * 10 + digit_val(
            dec(n).last(),
        ));
        assert(dec(n).drop_last() =~= d);
        assert forall|i: int| 0 <= i < dec(n).len() implies is_digit(#[trigger] dec(n)[i]) by {
            if i < d.len() {
                assert(dec(n)[i] == d[i]);
            }
        }
        assert(dec(n)[0] == d[0]);
    }
}

/// `parse::<u32>()` reads back the decimal form of a `u32`.
pub proof fn lemma_parse_u32_dec(n: u32)
    ensures
        parse_u32(dec(n as nat)) == Some(n),
{
    lemma_dec_digits(n as nat);
}

/// No `c` in a decimal number.
pub proof fn lemma_dec_lacks(n: nat, c: char)
    requires
        !is_digit(c),
    ensures
        lacks(dec(n), c),
{
    lemma_dec_digits(n);
}

} // verus!
