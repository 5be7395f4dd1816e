//! Layout arithmetic of the JIRA kanban board and the text cut to fit its cards.
use vstd::prelude::*;
use crate::text::{push_str, slice, str_chars, string_from_chars};

verus! {

broadcast use vstd::string::group_string_axioms;

/// Minimum column width for kanban columns (including border).
pub const MIN_COL_WIDTH: u16 = 25;

/// How many columns fit: as many minimum-width columns as the board holds, no more than
/// there are, and at least one.
pub open spec fn visible_cols(board_width: u16, total_cols: usize) -> usize {
    let max_fit = (board_width / MIN_COL_WIDTH) as usize;
    let m = if max_fit < total_cols {
        max_fit
    } else {
        total_cols
    };
    if m < 1 {
        1
    } else {
        m
    }
}

pub fn visible_col_count(board_width: u16, total_cols: usize) -> (r: usize)
    ensures
        r == visible_cols(board_width, total_cols),
{
    let max_fit = (board_width / MIN_COL_WIDTH) as usize;
    let m = if max_fit < total_cols {
        max_fit
    } else {
        total_cols
    };
    if m < 1 {
        1
    } else {
        m
    }
}

/// The board width split into `visible_count` columns: the first `width % count`
/// columns are one wider.
pub fn column_widths(board_width: u16, visible_count: usize) -> (r: Vec<u16>)
    requires
        visible_count <= u16::MAX,
    ensures
        r@.len() == visible_count,
        forall|i: int|
            0 <= i < visible_count ==> #[trigger] r@[i] == board_width / (visible_count as u16) + (
            if i < board_width % (visible_count as u16) {
                1int
            } else {
                0int
            }),
        visible_count > 0 ==> r@.fold_left(0int, |acc: int, w: u16| acc + w) == board_width,
{
    let mut out: Vec<u16> = Vec::new();
    if visible_count == 0 {
        return out;
    }
    let n = visible_count as u16;
    let base = board_width / n;
    let rem = (board_width % n) as usize;
    proof {
        assert(base * n + rem == board_width) by (nonlinear_arith)
            requires
                base == board_width / n,
                rem == board_width % n,
                n > 0,
        ;
        assert(base * n <= board_width);
    }
    let mut i: usize = 0;
    while i < visible_count
        invariant
            i <= visible_count,
            visible_count <= u16::MAX,
            n == visible_count,
            n > 0,
            base == board_width / n,
            rem == board_width % n,
            rem < n,
            base * n + rem == board_width,
            out@.len() == i,
            forall|k: int|
                0 <= k < i ==> #[trigger] out@[k] == base + (if k < rem {
                    1int
                } else {
                    0int
                }),
            out@.fold_left(0int, |acc: int, w: u16| acc + w) == base * i + (if i < rem {
                i as int
            } else {
                rem as int
            }),
        decreases visible_count - i,
    {
        let w: u16 = if i < rem {
            assert(base + 1 <= u16::MAX) by (nonlinear_arith)
                requires
                    base * n + rem == board_width,
                    rem >= 1,
                    n >= 1,
                    board_width <= u16::MAX,
            ;
            base + 1
        } else {
            base
        };
        let ghost before = out@;
        out.push(w);
        assert(out@.drop_last() =~= before);
        proof {
            assert(base * (i + 1) == base * i + base) by (nonlinear_arith);
        }
        i = i + 1;
    }
    out
}

/// `s` cut to `max` characters; where it is longer than `max` and `max` is above 3, the
/// last three kept characters give way to `...`.
pub open spec fn truncated(s: Seq<char>, max: nat) -> Seq<char> {
    if max == 0 {
        Seq::empty()
    } else if s.len() <= max {
        s
    } else if max <= 3 {
        s.take(max as int)
    } else {
        s.take(max - 3) + "..."@
    }
}

/// Cut `s` to at most `max_chars` characters, marking a cut with `...`.
pub fn truncate_str(s: &str, max_chars: usize) -> (r: String)
    ensures
        r@ == truncated(s@, max_chars as nat),
{
    let cs = str_chars(s);
    if max_chars == 0 {
        return string_from_chars(&Vec::new());
    }
    if cs.len() <= max_chars {
        return string_from_chars(&cs);
    }
    if max_chars <= 3 {
        let t = slice(&cs, 0, max_chars);
        return string_from_chars(&t);
    }
    let mut t = slice(&cs, 0, max_chars - 3);
    push_str(&mut t, "...");
    string_from_chars(&t)
}

} // verus!
