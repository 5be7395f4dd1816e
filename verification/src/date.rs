//! Calendar dates (proleptic Gregorian), as the data model stores them.
use vstd::prelude::*;
use crate::text::{dec, dec_pad, digit_val, digits_value, is_digit, lemma_dec_digits, push_dec_pad};
use chrono::Datelike;

verus! {

broadcast use vstd::string::group_string_axioms;

/// The earliest year a date can hold (as in chrono).
pub const MIN_YEAR: i32 = -262143;

/// The latest year a date can hold (as in chrono).
pub const MAX_YEAR: i32 = 262142;

/// A calendar date.
#[derive(Clone, Copy, Debug, PartialEq, Eq, Hash, Structural)]
pub struct Date {
    pub year: i32,
    pub month: u32,
    pub day: u32,
}

pub open spec fn is_leap(y: int) -> bool {
    (y % 4 == 0 && y % 100 != 0) || y % 400 == 0
}

pub open spec fn days_in_month(y: int, m: int) -> int {
    if m == 2 {
        if is_leap(y) {
            29
        } else {
            28
        }
    } else if m == 4 || m == 6 || m == 9 || m == 11 {
        30
    } else {
        31
    }
}

pub open spec fn valid_ymd(y: int, m: int, d: int) -> bool {
    &&& MIN_YEAR <= y <= MAX_YEAR
    &&& 1 <= m <= 12
    &&& 1 <= d <= days_in_month(y, m)
}

impl Date {
    /// The date names a real day in the supported range of years.
    pub open spec fn wf(self) -> bool {
        valid_ymd(self.year as int, self.month as int, self.day as int)
    }

    /// The date from year, month and day, if they name a real day
    /// (`NaiveDate::from_ymd_opt`).
    pub fn from_ymd_opt(year: i32, month: u32, day: u32) -> (r: Option<Date>)
        ensures
            r == (if valid_ymd(year as int, month as int, day as int) {
                Some(Date { year, month, day })
            } else {
                None
            }),
    {
        if year < MIN_YEAR || year > MAX_YEAR || month < 1 || month > 12 || day < 1 {
            return None;
        }
        let leap = (year % 4 == 0 && year % 100 != 0) || year % 400 == 0;
        proof {
            assert(leap == is_leap(year as int)) by (nonlinear_arith)
                requires
                    leap == ((year % 4 == 0 && year % 100 != 0) || year % 400 == 0),
            ;
        }
        let dim: u32 = if month == 2 {
            if leap {
                29
            } else {
                28
            }
        } else if month == 4 || month == 6 || month == 9 || month == 11 {
            30
        } else {
            31
        };
        if day > dim {
            None
        } else {
            Some(Date { year, month, day })
        }
    }
}

// ── Text form ────────────────────────────────────────────────────────

/// The year as `%Y` writes it: four digits for years 0 to 9999, otherwise a sign and at
/// least four digits.
pub open spec fn year_text(y: int) -> Seq<char> {
    if 0 <= y <= 9999 {
        dec_pad(y as nat, 4)
    } else if y < 0 {
        seq!['-'] + dec_pad((-y) as nat, 4)
    } else {
        seq!['+'] + dec_pad(y as nat, 4)
    }
}

/// `YYYY-MM-DD`, the `Display` form of a date.
pub open spec fn date_text(d: Date) -> Seq<char> {
    year_text(d.year as int) + seq!['-'] + dec_pad(d.month as nat, 2) + seq!['-'] + dec_pad(
        d.day as nat,
        2,
    )
}

pub fn push_year(out: &mut Vec<char>, y: i32)
    ensures
        final(out)@ == old(out)@ + year_text(y as int),
{
    if 0 <= y && y <= 9999 {
        push_dec_pad(out, y as u64, 4);
    } else if y < 0 {
        let ghost start = out@;
        out.push('-');
        let a: u64 = if y == i32::MIN {
            2147483648u64
        } else {
            (-y) as u64
        };
        push_dec_pad(out, a, 4);
        assert(out@ =~= start + year_text(y as int));
    } else {
        let ghost start = out@;
        out.push('+');
        push_dec_pad(out, y as u64, 4);
        assert(out@ =~= start + year_text(y as int));
    }
}

/// Appends `YYYY-MM-DD` to `out`.
pub fn push_date(out: &mut Vec<char>, d: Date)
    ensures
        final(out)@ == old(out)@ + date_text(d),
{
    let ghost start = out@;
    push_year(out, d.year);
    out.push('-');
    push_dec_pad(out, d.month as u64, 2);
    out.push('-');
    push_dec_pad(out, d.day as u64, 2);
    assert(out@ =~= start + date_text(d));
}

/// What `NaiveDate::parse_from_str(s, "%Y-%m-%d")` gives on a text that is neither of the
/// shape `DDDD-DD-DD` nor the `YYYY-MM-DD` form of a date.
pub uninterp spec fn chrono_parse_ymd_other(s: Seq<char>) -> Option<Date>;

/// Four ASCII digits, `-`, two digits, `-`, two digits.
pub open spec fn ymd_shape(t: Seq<char>) -> bool {
    &&& t.len() == 10
    &&& t[4] == '-'
    &&& t[7] == '-'
    &&& forall|i: int| 0 <= i < 10 && i != 4 && i != 7 ==> is_digit(#[trigger] t[i])
}

/// The date a text of that shape names, if its month and day make a date in that year.
pub open spec fn shape_date(t: Seq<char>) -> Option<Date> {
    let y = digits_value(t.subrange(0, 4));
    let m = digits_value(t.subrange(5, 7));
    let d = digits_value(t.subrange(8, 10));
    if valid_ymd(y as int, m as int, d as int) {
        Some(Date { year: y as i32, month: m as u32, day: d as u32 })
    } else {
        None
    }
}

/// What `NaiveDate::parse_from_str(s, "%Y-%m-%d")` gives: on a text of the shape
/// `DDDD-DD-DD`, the date it names, or nothing where the month or day makes no date; the date
/// whose text `s` is; and otherwise what is named above.
#[verifier::opaque]
pub open spec fn chrono_parse_ymd(s: Seq<char>) -> Option<Date> {
    if ymd_shape(s) {
        shape_date(s)
    } else if exists|d: Date| d.wf() && date_text(d) == s {
        Some(choose|d: Date| d.wf() && date_text(d) == s)
    } else {
        chrono_parse_ymd_other(s)
    }
}

/// Calls chrono's `NaiveDate::parse_from_str(s, "%Y-%m-%d")` and reads the year, month
/// and day of the result. The contract claims that a parsed date is a real date; that a text
/// of four ASCII digits, `-`, two digits, `-`, two digits gives the date it names, and
/// nothing where the month is not 1 to 12 or the day is not in that month (chrono reads up
/// to four digits of year without a sign and two of month and day, rejects a month or day
/// out of range, then checks the date); and that the `YYYY-MM-DD` text of a date
/// (`date_text`: the year as `%Y` writes it, with a sign outside 0 to 9999) parses back to
/// that date, since chrono reads a signed year of any number of digits and its years reach
/// past the range `wf` allows. Of other texts the result is only named.
#[verifier::external_body]
pub(crate) fn parse_ymd(s: &str) -> (r: Option<Date>)
    ensures
        r == chrono_parse_ymd(s@),
        !ymd_shape(s@) && !(exists|d: Date| d.wf() && date_text(d) == s@) ==> r
            == chrono_parse_ymd_other(s@),
        r matches Some(d) ==> d.wf(),
{
    match chrono::NaiveDate::parse_from_str(s, "%Y-%m-%d") {
        Ok(d) => Some(Date { year: d.year(), month: d.month(), day: d.day() }),
        Err(_) => None,
    }
}

/// Leading zeros add nothing to a number's value.
proof fn lemma_digits_value_zeros(z: nat, s: Seq<char>)
    ensures
        digits_value(Seq::new(z, |i: int| '0') + s) == digits_value(s),
    decreases s.len(), z,
{
    let zs = Seq::new(z, |i: int| '0');
    if s.len() == 0 {
        assert(zs + s =~= zs);
        if z > 0 {
            assert(zs.drop_last() =~= Seq::new((z - 1) as nat, |i: int| '0') + Seq::<char>::empty());
            lemma_digits_value_zeros((z - 1) as nat, Seq::<char>::empty());
            assert(digit_val('0') == 0);
        }
    } else {
        assert((zs + s).drop_last() =~= zs + s.drop_last());
        lemma_digits_value_zeros(z, s.drop_last());
    }
}

proof fn lemma_dec_pad_value(n: nat, w: nat)
    ensures
        digits_value(dec_pad(n, w)) == n,
        dec_pad(n, w).len() >= dec(n).len(),
{
    lemma_dec_digits(n);
    let z = (if dec(n).len() < w { w - dec(n).len() } else { 0 }) as nat;
    lemma_digits_value_zeros(z, dec(n));
}

pub(crate) proof fn lemma_dec_small(n: nat)
    requires
        n < 100,
    ensures
        dec_pad(n, 2).len() == 2,
{
    if n >= 10 {
        assert(dec(n / 10).len() == 1);
    }
}

proof fn lemma_year_text_injective(a: int, b: int)
    requires
        year_text(a) == year_text(b),
    ensures
        a == b,
{
    let ta = year_text(a);
    let na: nat = (if a < 0 { -a } else { a }) as nat;
    let nb: nat = (if b < 0 { -b } else { b }) as nat;
    lemma_dec_pad_value(na, 4);
    lemma_dec_pad_value(nb, 4);
    lemma_dec_digits(na);
    lemma_dec_digits(nb);
    let pa = dec_pad(na, 4);
    let pb = dec_pad(nb, 4);
    assert(pa.len() >= 1 && pb.len() >= 1);
    assert(is_digit(pa[0])) by {
        if dec(na).len() < 4 {
            assert(pa[0] == '0');
        } else {
            assert(pa[0] == dec(na)[0]);
        }
    }
    assert(is_digit(pb[0])) by {
        if dec(nb).len() < 4 {
            assert(pb[0] == '0');
        } else {
            assert(pb[0] == dec(nb)[0]);
        }
    }
    if 0 <= a <= 9999 {
        assert(ta[0] == pa[0]);
    } else {
        assert(ta[0] == '-' || ta[0] == '+');
        assert(ta.drop_first() =~= pa);
    }
    if 0 <= b <= 9999 {
        assert(year_text(b)[0] == pb[0]);
    } else {
        assert(year_text(b).drop_first() =~= pb);
    }
}

/// Two real dates with the same text are the same date.
pub proof fn lemma_date_text_injective(a: Date, b: Date)
    requires
        a.wf(),
        b.wf(),
        date_text(a) == date_text(b),
    ensures
        a == b,
{
    lemma_dec_small(a.month as nat);
    lemma_dec_small(a.day as nat);
    lemma_dec_small(b.month as nat);
    lemma_dec_small(b.day as nat);
    let ya = year_text(a.year as int);
    let yb = year_text(b.year as int);
    let ta = date_text(a);
    let tb = date_text(b);
    assert(ta.len() == ya.len() + 6);
    assert(tb.len() == yb.len() + 6);
    assert(ta.subrange(0, ya.len() as int) =~= ya);
    assert(tb.subrange(0, yb.len() as int) =~= yb);
    lemma_year_text_injective(a.year as int, b.year as int);
    let l = ya.len() as int;
    assert(ta.subrange(l + 1, l + 3) =~= dec_pad(a.month as nat, 2));
    assert(tb.subrange(l + 1, l + 3) =~= dec_pad(b.month as nat, 2));
    assert(ta.subrange(l + 4, l + 6) =~= dec_pad(a.day as nat, 2));
    assert(tb.subrange(l + 4, l + 6) =~= dec_pad(b.day as nat, 2));
    lemma_dec_pad_value(a.month as nat, 2);
    lemma_dec_pad_value(b.month as nat, 2);
    lemma_dec_pad_value(a.day as nat, 2);
    lemma_dec_pad_value(b.day as nat, 2);
}

/// chrono reads a date back from its text.
pub proof fn lemma_date_read_back(d: Date)
    requires
        d.wf(),
    ensures
        chrono_parse_ymd(date_text(d)) == Some(d),
{
    reveal(chrono_parse_ymd);
    let t = date_text(d);
    if 0 <= d.year <= 9999 {
        crate::person_laws::lemma_date_text_parts(d);
        lemma_dec_pad_value(d.year as nat, 4);
        lemma_dec_pad_value(d.month as nat, 2);
        lemma_dec_pad_value(d.day as nat, 2);
        assert(ymd_shape(t));
    } else {
        let n: nat = (if d.year < 0 { -d.year } else { d.year as int }) as nat;
        lemma_dec_pad_value(n, 4);
        assert(year_text(d.year as int).len() >= 5);
        assert(!ymd_shape(t));
        let c = choose|e: Date| e.wf() && date_text(e) == t;
        lemma_date_text_injective(c, d);
    }
}

/// Calls chrono's `Local::now().date_naive()`: today's date in the local time zone.
/// Only that the result is a real date is stated.
#[verifier::external_body]
pub(crate) fn today() -> (r: Date)
    ensures
        r.wf(),
{
    let d = chrono::Local::now().date_naive();
    Date { year: d.year(), month: d.month(), day: d.day() }
}

// ── Day arithmetic ───────────────────────────────────────────────────

/// Days from 1970-01-01 to the given day (negative before it).
pub open spec fn days_from_civil(y: int, m: int, d: int) -> int {
    let yy = if m <= 2 {
        y - 1
    } else {
        y
    };
    let era = yy / 400;
    let yoe = yy - era * 400;
    let mp = if m > 2 {
        m - 3
    } else {
        m + 9
    };
    let doy = (153 * mp + 2) / 5 + d - 1;
    let doe = yoe * 365 + yoe / 4 - yoe / 100 + doy;
    era * 146097 + doe - 719468
}

pub open spec fn day_number(d: Date) -> int {
    days_from_civil(d.year as int, d.month as int, d.day as int)
}

/// Days from 1970-01-01 to `d`.
pub fn day_number_of(d: Date) -> (r: i64)
    requires
        d.wf(),
    ensures
        r == day_number(d),
        -200_000_000 <= r <= 200_000_000,
{
    let y: i64 = d.year as i64;
    let m: i64 = d.month as i64;
    let dd: i64 = d.day as i64;
    let yy: i64 = if m <= 2 {
        y - 1
    } else {
        y
    };
    let shifted: i64 = yy + 280000;
    let era: i64 = shifted / 400 - 700;
    proof {
        assert(era == yy / 400) by (nonlinear_arith)
            requires
                era == shifted / 400 - 700,
                shifted == yy + 280000,
                shifted >= 0,
        ;
    }
    let yoe: i64 = yy - era * 400;
    let mp: i64 = if m > 2 {
        m - 3
    } else {
        m + 9
    };
    let doy: i64 = (153 * mp + 2) / 5 + dd - 1;
    let doe: i64 = yoe * 365 + yoe / 4 - yoe / 100 + doy;
    era * 146097 + doe - 719468
}

/// Days from `b` to `a` (`(a - b).num_days()`).
pub fn days_between(a: Date, b: Date) -> (r: i64)
    requires
        a.wf(),
        b.wf(),
    ensures
        r == day_number(a) - day_number(b),
{
    let x = day_number_of(a);
    let y = day_number_of(b);
    x - y
}

} // verus!
