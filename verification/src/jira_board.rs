//! The JIRA kanban board: which issues it shows, its status columns, and what each key does
//! to the selection, the filters and the requests for the JIRA service.
use vstd::prelude::*;
use crate::export::{text_le, text_le_of};
use crate::jira::{error_text, JiraError, StatusCategory};
use crate::jira_api::{IssueView, JiraIssue};
use crate::jira_client::JiraResult;
use crate::text::{dec, push_dec, push_str, str_chars, string_from_chars};
use crate::events::{KeyCode, KeyPress};

verus! {

broadcast use vstd::string::group_string_axioms;

// ── Which issues the board shows ─────────────────────────────────────

/// Whether the board shows an issue: it belongs to the chosen project, if one is chosen,
/// and it is not done unless done issues are shown.
pub open spec fn shown(i: IssueView, filter: Option<Seq<char>>, show_done: bool) -> bool {
    &&& match filter {
        Some(f) => i.project_key == f,
        None => true,
    }
    &&& (show_done || i.category != StatusCategory::Done)
}

/// The positions of the shown issues, in order.
pub open spec fn shown_positions(is: Seq<IssueView>, filter: Option<Seq<char>>, show_done: bool) -> Seq<int>
    decreases is.len(),
{
    if is.len() == 0 {
        Seq::empty()
    } else {
        let p = shown_positions(is.drop_last(), filter, show_done);
        if shown(is.last(), filter, show_done) {
            p.push(is.len() - 1)
        } else {
            p
        }
    }
}

proof fn lemma_shown_positions_range(is: Seq<IssueView>, filter: Option<Seq<char>>, show_done: bool)
    ensures
        forall|j: int|
            0 <= j < shown_positions(is, filter, show_done).len() ==> 0 <= #[trigger] shown_positions(
                is,
                filter,
                show_done,
            )[j] < is.len(),
        shown_positions(is, filter, show_done).len() <= is.len(),
    decreases is.len(),
{
    if is.len() > 0 {
        lemma_shown_positions_range(is.drop_last(), filter, show_done);
    }
}

// ── Status columns ───────────────────────────────────────────────────

/// A status: its name and category.
pub open spec fn status_of(i: IssueView) -> (Seq<char>, StatusCategory) {
    (i.status_name, i.category)
}

pub open spec fn has_name(us: Seq<(Seq<char>, StatusCategory)>, n: Seq<char>) -> bool {
    exists|k: int| 0 <= k < us.len() && #[trigger] us[k].0 == n
}

/// Each status name once, with the category of its first issue, in order of first
/// appearance.
pub open spec fn first_statuses(ss: Seq<(Seq<char>, StatusCategory)>) -> Seq<(Seq<char>, StatusCategory)>
    decreases ss.len(),
{
    if ss.len() == 0 {
        Seq::empty()
    } else {
        let u = first_statuses(ss.drop_last());
        if has_name(u, ss.last().0) {
            u
        } else {
            u.push(ss.last())
        }
    }
}

/// The statuses of one category, in order.
pub open spec fn of_category(us: Seq<(Seq<char>, StatusCategory)>, c: StatusCategory) -> Seq<
    (Seq<char>, StatusCategory),
>
    decreases us.len(),
{
    if us.len() == 0 {
        Seq::empty()
    } else if us.last().1 == c {
        of_category(us.drop_last(), c).push(us.last())
    } else {
        of_category(us.drop_last(), c)
    }
}

/// The columns in board order: to do, then in progress, then done (a stable sort by
/// category).
pub open spec fn column_order(us: Seq<(Seq<char>, StatusCategory)>) -> Seq<(Seq<char>, StatusCategory)> {
    of_category(us, StatusCategory::ToDo) + of_category(us, StatusCategory::InProgress)
        + of_category(us, StatusCategory::Done)
}

/// The positions, among `ss`, of the statuses named `n`.
pub open spec fn name_positions(ss: Seq<(Seq<char>, StatusCategory)>, n: Seq<char>) -> Seq<int>
    decreases ss.len(),
{
    if ss.len() == 0 {
        Seq::empty()
    } else if ss.last().0 == n {
        name_positions(ss.drop_last(), n).push(ss.len() - 1)
    } else {
        name_positions(ss.drop_last(), n)
    }
}

/// The statuses of the shown issues, in order.
pub open spec fn shown_statuses(is: Seq<IssueView>, filter: Option<Seq<char>>, show_done: bool) -> Seq<
    (Seq<char>, StatusCategory),
> {
    shown_positions(is, filter, show_done).map_values(|p: int| status_of(is[p]))
}

/// The board's columns: each status's name, category, and the positions of its issues among
/// the shown issues.
pub open spec fn board_columns(is: Seq<IssueView>, filter: Option<Seq<char>>, show_done: bool) -> Seq<
    (Seq<char>, StatusCategory, Seq<int>),
> {
    let ss = shown_statuses(is, filter, show_done);
    column_order(first_statuses(ss)).map_values(
        |u: (Seq<char>, StatusCategory)| (u.0, u.1, name_positions(ss, u.0)),
    )
}

/// A column of the board, representing one workflow status.
pub struct StatusColumn {
    pub name: String,
    pub category: StatusCategory,
    /// Positions among the shown issues.
    pub issue_indices: Vec<usize>,
}

impl View for StatusColumn {
    type V = (Seq<char>, StatusCategory, Seq<int>);

    open spec fn view(&self) -> (Seq<char>, StatusCategory, Seq<int>) {
        (self.name@, self.category, self.issue_indices@.map_values(|u: usize| u as int))
    }
}

/// State of the horizontally-scrolling kanban board.
pub struct BoardState {
    pub columns: Vec<StatusColumn>,
    pub selected_col: usize,
    pub scroll_offset: usize,
    pub selected_row: usize,
    pub col_scroll_offsets: Vec<usize>,
}

impl Default for BoardState {
    fn default() -> (r: Self)
        ensures
            r.columns.len() == 0,
            r.selected_col == 0,
            r.scroll_offset == 0,
            r.selected_row == 0,
            r.col_scroll_offsets.len() == 0,
    {
        BoardState {
            columns: Vec::new(),
            selected_col: 0,
            scroll_offset: 0,
            selected_row: 0,
            col_scroll_offsets: Vec::new(),
        }
    }
}

impl BoardState {
    pub open spec fn columns_view(&self) -> Seq<(Seq<char>, StatusCategory, Seq<int>)> {
        self.columns@.map_values(|c: StatusColumn| c@)
    }

    /// The selection stands within the columns, and within the selected column's issues.
    pub open spec fn wf(&self) -> bool {
        &&& self.columns.len() > 0 ==> self.selected_col < self.columns.len()
        &&& self.columns.len() == 0 ==> self.selected_col == 0 && self.selected_row == 0
    }
}

/// The JIRA issues on the board, with the board's state, its filters, and the generation
/// of the latest refresh.
pub struct JiraBoard {
    pub issues: Vec<JiraIssue>,
    pub board: BoardState,
    pub project_filter: Option<String>,
    pub show_done: bool,
    pub loading: bool,
    pub refreshing: bool,
    pub generation: u64,
    pub last_error: Option<String>,
}

pub open spec fn opt_text(o: Option<String>) -> Option<Seq<char>> {
    match o {
        Some(s) => Some(s@),
        None => None,
    }
}

pub open spec fn sv(us: Seq<(String, StatusCategory)>) -> Seq<(Seq<char>, StatusCategory)> {
    us.map_values(|u: (String, StatusCategory)| (u.0@, u.1))
}

fn contains_name(us: &Vec<(String, StatusCategory)>, n: &String) -> (b: bool)
    ensures
        b == has_name(sv(us@), n@),
{
    let ghost v = sv(us@);
    let mut k: usize = 0;
    while k < us.len()
        invariant
            k <= us.len(),
            v == sv(us@),
            forall|j: int| 0 <= j < k ==> v[j].0 != n@,
        decreases us.len() - k,
    {
        if us[k].0 == *n {
            assert(v[k as int].0 == n@);
            return true;
        }
        k = k + 1;
    }
    false
}

impl JiraBoard {
    pub open spec fn issues_view(&self) -> Seq<IssueView> {
        self.issues@.map_values(|i: JiraIssue| i@)
    }

    /// An empty board.
    pub fn new() -> (r: Self)
        ensures
            r.issues.len() == 0,
            r.board.columns.len() == 0,
            r.board.selected_col == 0,
            r.board.selected_row == 0,
            r.board.scroll_offset == 0,
            r.board.col_scroll_offsets.len() == 0,
            r.project_filter is None,
            !r.show_done,
            !r.loading,
            !r.refreshing,
            r.generation == 0,
            r.last_error is None,
    {
        JiraBoard {
            issues: Vec::new(),
            board: BoardState::default(),
            project_filter: None,
            show_done: false,
            loading: false,
            refreshing: false,
            generation: 0,
            last_error: None,
        }
    }

    /// The positions, in `issues`, of the issues the board shows.
    pub fn filtered_issues(&self) -> (r: Vec<usize>)
        ensures
            r@.map_values(|u: usize| u as int) == shown_positions(
                self.issues_view(),
                opt_text(self.project_filter),
                self.show_done,
            ),
    {
        let ghost is = self.issues_view();
        let ghost f = opt_text(self.project_filter);
        let mut r: Vec<usize> = Vec::new();
        let mut i: usize = 0;
        while i < self.issues.len()
            invariant
                i <= self.issues.len(),
                is == self.issues_view(),
                f == opt_text(self.project_filter),
                r@.map_values(|u: usize| u as int) == shown_positions(is.subrange(0, i as int), f, self.show_done),
            decreases self.issues.len() - i,
        {
            let issue = &self.issues[i];
            let in_project = match &self.project_filter {
                Some(pf) => issue.project_key == *pf,
                None => true,
            };
            let keep = in_project && (self.show_done || issue.status.category != StatusCategory::Done);
            assert(is.subrange(0, i + 1).drop_last() =~= is.subrange(0, i as int));
            assert(is.subrange(0, i + 1).last() == issue@);
            if keep {
                r.push(i);
            }
            assert(r@.map_values(|u: usize| u as int) =~= shown_positions(is.subrange(0, i + 1), f, self.show_done));
            i = i + 1;
        }
        assert(is.subrange(0, i as int) =~= is);
        r
    }
}

/// The board after its columns are rebuilt from the issues that `filter` and `show_done`
/// show: the columns as `board_columns` gives them, one scroll offset per column (the old
/// ones kept, new ones zero), the selection clamped to the columns, the board's own scroll
/// offset kept.
pub open spec fn rebuilt(
    b0: BoardState,
    b: BoardState,
    is: Seq<IssueView>,
    filter: Option<Seq<char>>,
    show_done: bool,
) -> bool {
    &&& b.columns_view() == board_columns(is, filter, show_done)
    &&& b.scroll_offset == b0.scroll_offset
    &&& b.col_scroll_offsets.len() == b.columns.len()
    &&& forall|i: int|
        0 <= i < b.col_scroll_offsets.len() ==> #[trigger] b.col_scroll_offsets[i] == if i
            < b0.col_scroll_offsets.len() {
            b0.col_scroll_offsets[i]
        } else {
            0
        }
    &&& b.wf()
    &&& b.columns.len() > 0 ==> b.selected_col == if b0.selected_col < b.columns.len() {
        b0.selected_col
    } else {
        (b.columns.len() - 1) as usize
    }
    &&& b.columns.len() > 0 ==> ({
        let cnt = b.columns[b.selected_col as int].issue_indices.len();
        b.selected_row == if cnt == 0 {
            0
        } else if b0.selected_row < cnt {
            b0.selected_row
        } else {
            (cnt - 1) as usize
        }
    })
}

fn take_category(us: &Vec<(String, StatusCategory)>, c: StatusCategory, out: &mut Vec<(String, StatusCategory)>)
    ensures
        sv(final(out)@) == sv(old(out)@) + of_category(sv(us@), c),
{
    let ghost start = sv(out@);
    let mut k: usize = 0;
    while k < us.len()
        invariant
            k <= us.len(),
            sv(out@) == start + of_category(sv(us@).subrange(0, k as int), c),
        decreases us.len() - k,
    {
        let ghost pre = sv(us@).subrange(0, k + 1);
        assert(pre.drop_last() =~= sv(us@).subrange(0, k as int));
        assert(pre.last() == (us[k as int].0@, us[k as int].1));
        if us[k].1 == c {
            let ghost before = out@;
            out.push((us[k].0.clone(), us[k].1));
            assert(sv(out@) =~= sv(before).push((us[k as int].0@, us[k as int].1)));
        }
        k = k + 1;
    }
    assert(sv(us@).subrange(0, us.len() as int) =~= sv(us@));
}

fn resize_zero(v: &mut Vec<usize>, n: usize)
    ensures
        final(v).len() == n,
        forall|i: int| 0 <= i < n && i < old(v).len() ==> final(v)[i] == old(v)[i],
        forall|i: int| old(v).len() <= i < n ==> final(v)[i] == 0,
{
    if v.len() > n {
        while v.len() > n
            invariant
                n <= v.len() <= old(v).len(),
                forall|i: int| 0 <= i < v.len() ==> v[i] == old(v)[i],
            decreases v.len(),
        {
            v.pop();
        }
    } else {
        while v.len() < n
            invariant
                old(v).len() <= v.len() <= n,
                forall|i: int| 0 <= i < old(v).len() ==> v[i] == old(v)[i],
                forall|i: int| old(v).len() <= i < v.len() ==> v[i] == 0,
            decreases n - v.len(),
        {
            v.push(0);
        }
    }
}

impl JiraBoard {
    /// The statuses of the shown issues, whose positions `pos` gives.
    fn names_at(&self, pos: &Vec<usize>, n: &String) -> (r: Vec<usize>)
        requires
            pos@.map_values(|u: usize| u as int) == shown_positions(
                self.issues_view(),
                opt_text(self.project_filter),
                self.show_done,
            ),
        ensures
            r@.map_values(|u: usize| u as int) == name_positions(
                shown_statuses(self.issues_view(), opt_text(self.project_filter), self.show_done),
                n@,
            ),
    {
        let ghost is = self.issues_view();
        let ghost ss = shown_statuses(is, opt_text(self.project_filter), self.show_done);
        proof {
            lemma_shown_positions_range(is, opt_text(self.project_filter), self.show_done);
        }
        assert forall|k: int| 0 <= k < pos.len() implies #[trigger] pos[k] < self.issues.len() && ss[k] == status_of(is[pos[k] as int]) by {
            assert(pos@.map_values(|u: usize| u as int)[k] == pos[k] as int);
        }
        let mut r: Vec<usize> = Vec::new();
        let mut j: usize = 0;
        while j < pos.len()
            invariant
                j <= pos.len(),
                is == self.issues_view(),
                ss == shown_statuses(is, opt_text(self.project_filter), self.show_done),
                ss.len() == pos.len(),
                forall|k: int| 0 <= k < pos.len() ==> #[trigger] pos[k] < self.issues.len() && ss[k] == status_of(is[pos[k] as int]),
                r@.map_values(|u: usize| u as int) == name_positions(ss.subrange(0, j as int), n@),
            decreases pos.len() - j,
        {
            let ghost pre = ss.subrange(0, j + 1);
            assert(pre.drop_last() =~= ss.subrange(0, j as int));
            assert(pre.last() == ss[j as int]);
            assert(pos[j as int] < self.issues.len());
            if self.issues[pos[j]].status.name == *n {
                r.push(j);
            }
            assert(r@.map_values(|u: usize| u as int) =~= name_positions(pre, n@));
            j = j + 1;
        }
        assert(ss.subrange(0, j as int) =~= ss);
        r
    }

    /// Rebuild the columns from the shown issues: one per status, in order of first
    /// appearance and then by category (to do, in progress, done); the scroll offsets keep
    /// one entry per column; the selection is clamped to the new columns.
    pub fn rebuild_columns(&mut self)
        ensures
            final(self).issues == old(self).issues,
            final(self).project_filter == old(self).project_filter,
            final(self).show_done == old(self).show_done,
            final(self).refreshing == old(self).refreshing,
            final(self).generation == old(self).generation,
            final(self).loading == old(self).loading,
            final(self).last_error == old(self).last_error,
            rebuilt(
                old(self).board,
                final(self).board,
                old(self).issues_view(),
                opt_text(old(self).project_filter),
                old(self).show_done,
            ),
    {
        let ghost b0 = self.board;
        let ghost is = self.issues_view();
        let ghost f = opt_text(self.project_filter);
        let ghost ss = shown_statuses(is, f, self.show_done);
        let pos = self.filtered_issues();
        proof {
            lemma_shown_positions_range(is, f, self.show_done);
        }
        assert forall|k: int| 0 <= k < pos.len() implies #[trigger] pos[k] < self.issues.len() && ss[k] == status_of(is[pos[k] as int]) by {
            assert(pos@.map_values(|u: usize| u as int)[k] == pos[k] as int);
        }
        // each status once, in order of first appearance
        let mut us: Vec<(String, StatusCategory)> = Vec::new();
        let mut j: usize = 0;
        while j < pos.len()
            invariant
                j <= pos.len(),
                is == self.issues_view(),
                f == opt_text(self.project_filter),
                ss == shown_statuses(is, f, self.show_done),
                pos@.map_values(|u: usize| u as int) == shown_positions(is, f, self.show_done),
                ss.len() == pos.len(),
                forall|k: int| 0 <= k < pos.len() ==> #[trigger] pos[k] < self.issues.len() && ss[k] == status_of(is[pos[k] as int]),
                sv(us@) == first_statuses(ss.subrange(0, j as int)),
            decreases pos.len() - j,
        {
            let ghost pre = ss.subrange(0, j + 1);
            assert(pre.drop_last() =~= ss.subrange(0, j as int));
            assert(pre.last() == ss[j as int]);
            assert(pos[j as int] < self.issues.len());
            let issue = &self.issues[pos[j]];
            assert(ss[j as int] == (issue.status.name@, issue.status.category));
            if !contains_name(&us, &issue.status.name) {
                let ghost before = us@;
                us.push((issue.status.name.clone(), issue.status.category));
                assert(sv(us@) =~= sv(before).push((issue.status.name@, issue.status.category)));
            }
            j = j + 1;
        }
        assert(ss.subrange(0, j as int) =~= ss);
        // to do, then in progress, then done
        let mut ordered: Vec<(String, StatusCategory)> = Vec::new();
        take_category(&us, StatusCategory::ToDo, &mut ordered);
        take_category(&us, StatusCategory::InProgress, &mut ordered);
        take_category(&us, StatusCategory::Done, &mut ordered);
        assert(sv(ordered@) =~= column_order(first_statuses(ss)));
        // the columns
        let ghost expected = board_columns(is, f, self.show_done);
        let mut columns: Vec<StatusColumn> = Vec::new();
        let mut k: usize = 0;
        while k < ordered.len()
            invariant
                k <= ordered.len(),
                is == self.issues_view(),
                f == opt_text(self.project_filter),
                ss == shown_statuses(is, f, self.show_done),
                pos@.map_values(|u: usize| u as int) == shown_positions(is, f, self.show_done),
                expected == board_columns(is, f, self.show_done),
                sv(ordered@) == column_order(first_statuses(ss)),
                expected.len() == ordered.len(),
                columns.len() == k,
                forall|c: int| 0 <= c < k ==> #[trigger] columns[c]@ == expected[c],
            decreases ordered.len() - k,
        {
            let idx = self.names_at(&pos, &ordered[k].0);
            let col = StatusColumn { name: ordered[k].0.clone(), category: ordered[k].1, issue_indices: idx };
            assert(sv(ordered@)[k as int] == (ordered[k as int].0@, ordered[k as int].1));
            assert(col@ == expected[k as int]);
            columns.push(col);
            k = k + 1;
        }
        let n = columns.len();
        resize_zero(&mut self.board.col_scroll_offsets, n);
        self.board.columns = columns;
        assert(self.board.columns_view() =~= expected);
        if n == 0 {
            self.board.selected_col = 0;
            self.board.selected_row = 0;
        } else {
            if self.board.selected_col >= n {
                self.board.selected_col = n - 1;
            }
            let cnt = self.board.columns[self.board.selected_col].issue_indices.len();
            if cnt == 0 {
                self.board.selected_row = 0;
            } else if self.board.selected_row >= cnt {
                self.board.selected_row = cnt - 1;
            }
        }
    }
}

// ── Sorted project lists ─────────────────────────────────────────────

/// `a < b` in the order of `str`'s `Ord`.
pub open spec fn text_lt(a: Seq<char>, b: Seq<char>) -> bool {
    text_le(a, b) && a != b
}

/// Pairs in the order of the tuple's `Ord`: by the first text, then by the second.
pub open spec fn pair_le(a: (Seq<char>, Seq<char>), b: (Seq<char>, Seq<char>)) -> bool {
    text_lt(a.0, b.0) || (a.0 == b.0 && text_le(a.1, b.1))
}

/// `x` inserted into `sorted` after every pair that does not come after it.
pub open spec fn insert_pair(x: (Seq<char>, Seq<char>), sorted: Seq<(Seq<char>, Seq<char>)>) -> Seq<
    (Seq<char>, Seq<char>),
>
    decreases sorted.len(),
{
    if sorted.len() == 0 {
        seq![x]
    } else if pair_le(sorted.last(), x) {
        sorted.push(x)
    } else {
        insert_pair(x, sorted.drop_last()).push(sorted.last())
    }
}

/// The pairs sorted (a stable sort by `pair_le`).
pub open spec fn sort_pairs(xs: Seq<(Seq<char>, Seq<char>)>) -> Seq<(Seq<char>, Seq<char>)>
    decreases xs.len(),
{
    if xs.len() == 0 {
        Seq::empty()
    } else {
        insert_pair(xs.last(), sort_pairs(xs.drop_last()))
    }
}

/// Runs of equal pairs reduced to one (`Vec::dedup`).
pub open spec fn dedup_pairs(xs: Seq<(Seq<char>, Seq<char>)>) -> Seq<(Seq<char>, Seq<char>)>
    decreases xs.len(),
{
    if xs.len() == 0 {
        Seq::empty()
    } else {
        let d = dedup_pairs(xs.drop_last());
        if d.len() > 0 && d.last() == xs.last() {
            d
        } else {
            d.push(xs.last())
        }
    }
}

pub open spec fn pv(v: Seq<(String, String)>) -> Seq<(Seq<char>, Seq<char>)> {
    v.map_values(|x: (String, String)| (x.0@, x.1@))
}

fn pair_le_of(a: &(String, String), b: &(String, String)) -> (r: bool)
    ensures
        r == pair_le((a.0@, a.1@), (b.0@, b.1@)),
{
    let a0 = str_chars(a.0.as_str());
    let b0 = str_chars(b.0.as_str());
    if a.0 == b.0 {
        let a1 = str_chars(a.1.as_str());
        let b1 = str_chars(b.1.as_str());
        text_le_of(&a1, &b1)
    } else {
        text_le_of(&a0, &b0)
    }
}

fn clone_pair(x: &(String, String)) -> (r: (String, String))
    ensures
        r.0@ == x.0@,
        r.1@ == x.1@,
{
    (x.0.clone(), x.1.clone())
}

fn insert_pair_of(sorted: &Vec<(String, String)>, x: &(String, String)) -> (r: Vec<(String, String)>)
    ensures
        pv(r@) == insert_pair((x.0@, x.1@), pv(sorted@)),
{
    let ghost s = pv(sorted@);
    let ghost xv = (x.0@, x.1@);
    let mut k = sorted.len();
    assert(s.subrange(0, k as int) =~= s);
    assert(s.subrange(k as int, s.len() as int) =~= Seq::<(Seq<char>, Seq<char>)>::empty());
    assert(insert_pair(xv, s) + Seq::<(Seq<char>, Seq<char>)>::empty() =~= insert_pair(xv, s));
    while k > 0
        invariant
            k <= sorted.len(),
            s == pv(sorted@),
            xv == (x.0@, x.1@),
            insert_pair(xv, s) == insert_pair(xv, s.subrange(0, k as int)) + s.subrange(k as int, s.len() as int),
        ensures
            k <= sorted.len(),
            insert_pair(xv, s) == insert_pair(xv, s.subrange(0, k as int)) + s.subrange(k as int, s.len() as int),
            k > 0 ==> pair_le(s[k - 1], xv),
        decreases k,
    {
        let le = pair_le_of(&sorted[k - 1], x);
        assert(s[k - 1] == (sorted[k - 1].0@, sorted[k - 1].1@));
        assert(le == pair_le(s[k - 1], xv));
        if le {
            break;
        }
        let ghost sk = s.subrange(0, k as int);
        assert(sk.drop_last() =~= s.subrange(0, k - 1));
        assert(sk.last() == s[k - 1]);
        assert(s[k - 1] == (sorted[k - 1].0@, sorted[k - 1].1@));
        assert(!pair_le(sk.last(), xv));
        assert(sk.len() > 0);
        assert(insert_pair(xv, sk) == insert_pair(xv, sk.drop_last()).push(sk.last()));
        assert(insert_pair(xv, sk.drop_last()).push(sk.last()) + s.subrange(k as int, s.len() as int)
            =~= insert_pair(xv, s.subrange(0, k - 1)) + s.subrange(k - 1, s.len() as int));
        k = k - 1;
    }
    let mut r: Vec<(String, String)> = Vec::new();
    let mut i: usize = 0;
    while i < k
        invariant
            i <= k <= sorted.len(),
            s == pv(sorted@),
            pv(r@) == s.subrange(0, i as int),
        decreases k - i,
    {
        let ghost before = r@;
        assert(s[i as int] == (sorted[i as int].0@, sorted[i as int].1@));
        r.push(clone_pair(&sorted[i]));
        assert(pv(r@) =~= pv(before).push(s[i as int]));
        assert(pv(r@) =~= s.subrange(0, i + 1));
        i = i + 1;
    }
    let ghost before_x = r@;
    r.push(clone_pair(x));
    assert(pv(r@) =~= pv(before_x).push(xv));
    let ghost sk = s.subrange(0, k as int);
    if k == 0 {
        assert(sk =~= Seq::<(Seq<char>, Seq<char>)>::empty());
    } else {
        assert(sk.last() == s[k - 1]);
        assert(s[k - 1] == (sorted[k - 1].0@, sorted[k - 1].1@));
    }
    assert(insert_pair(xv, sk) =~= sk.push(xv));
    let mut j: usize = k;
    while j < sorted.len()
        invariant
            k <= j <= sorted.len(),
            s == pv(sorted@),
            xv == (x.0@, x.1@),
            pv(r@) == s.subrange(0, k as int).push(xv) + s.subrange(k as int, j as int),
        decreases sorted.len() - j,
    {
        let ghost before = r@;
        assert(s[j as int] == (sorted[j as int].0@, sorted[j as int].1@));
        r.push(clone_pair(&sorted[j]));
        assert(pv(r@) =~= pv(before).push(s[j as int]));
        assert(pv(r@) =~= s.subrange(0, k as int).push(xv) + s.subrange(k as int, j + 1));
        j = j + 1;
    }
    assert(pv(r@) =~= insert_pair(xv, s));
    r
}

/// The pairs sorted, with repeats removed.
fn sorted_unique(xs: &Vec<(String, String)>) -> (r: Vec<(String, String)>)
    ensures
        pv(r@) == dedup_pairs(sort_pairs(pv(xs@))),
{
    let mut sorted: Vec<(String, String)> = Vec::new();
    let mut i: usize = 0;
    while i < xs.len()
        invariant
            i <= xs.len(),
            pv(sorted@) == sort_pairs(pv(xs@).subrange(0, i as int)),
        decreases xs.len() - i,
    {
        let ghost pre = pv(xs@).subrange(0, i + 1);
        assert(pre.drop_last() =~= pv(xs@).subrange(0, i as int));
        assert(pre.last() == (xs[i as int].0@, xs[i as int].1@));
        sorted = insert_pair_of(&sorted, &xs[i]);
        i = i + 1;
    }
    assert(pv(xs@).subrange(0, i as int) =~= pv(xs@));
    let ghost sv2 = pv(sorted@);
    let mut out: Vec<(String, String)> = Vec::new();
    let mut k: usize = 0;
    while k < sorted.len()
        invariant
            k <= sorted.len(),
            sv2 == pv(sorted@),
            pv(out@) == dedup_pairs(sv2.subrange(0, k as int)),
        decreases sorted.len() - k,
    {
        let ghost pre = sv2.subrange(0, k + 1);
        assert(pre.drop_last() =~= sv2.subrange(0, k as int));
        assert(pre.last() == sv2[k as int]);
        let n = out.len();
        let same = n > 0 && out[n - 1].0 == sorted[k].0 && out[n - 1].1 == sorted[k].1;
        if n > 0 {
            assert(pv(out@).last() == (out[n - 1].0@, out[n - 1].1@));
        }
        if !same {
            let ghost before = out@;
            out.push(clone_pair(&sorted[k]));
            assert(pv(out@) =~= pv(before).push(sv2[k as int]));
        }
        k = k + 1;
    }
    assert(sv2.subrange(0, k as int) =~= sv2);
    out
}

// ── Keys ─────────────────────────────────────────────────────────────

pub open spec fn is_char(k: KeyPress, c: char) -> bool {
    k.code == KeyCode::Char(c)
}

pub open spec fn goes_left(k: KeyPress) -> bool {
    is_char(k, 'h') || k.code == KeyCode::Left
}

pub open spec fn goes_right(k: KeyPress) -> bool {
    is_char(k, 'l') || k.code == KeyCode::Right
}

pub open spec fn goes_down(k: KeyPress) -> bool {
    is_char(k, 'j') || k.code == KeyCode::Down
}

pub open spec fn goes_up(k: KeyPress) -> bool {
    is_char(k, 'k') || k.code == KeyCode::Up
}

pub open spec fn goes_back(k: KeyPress) -> bool {
    k.code == KeyCode::Esc || is_char(k, 'q')
}

/// The keys that move the selection.
pub open spec fn moves(k: KeyPress) -> bool {
    goes_left(k) || goes_right(k) || goes_down(k) || goes_up(k) || is_char(k, 'g') || is_char(k, 'G')
}

// ── Moving the selection ─────────────────────────────────────────────

/// The row clamped to the issues of column `col`.
pub open spec fn clamped_row(b: BoardState, col: int, row: int) -> int {
    if b.columns.len() == 0 {
        0
    } else {
        let len = b.columns[col].issue_indices.len() as int;
        if len == 0 {
            0
        } else if row >= len {
            len - 1
        } else {
            row
        }
    }
}

/// The per-column scroll offsets once the selected row of column `col` is `row`: the list
/// grows to hold the column, and the column's offset moves the least that keeps the row
/// among five cards from it.
pub open spec fn scrolled(offsets: Seq<usize>, col: int, row: int) -> Seq<usize> {
    let o = if col >= offsets.len() {
        offsets + Seq::new((col + 1 - offsets.len()) as nat, |i: int| 0usize)
    } else {
        offsets
    };
    let sc = o[col] as int;
    o.update(
        col,
        (if row < sc {
            row
        } else if row >= sc + 5 {
            row - 4
        } else {
            sc
        }) as usize,
    )
}

/// Selected column, board scroll offset, selected row and column scroll offsets after a
/// key that moves the selection, on a board with columns.
pub open spec fn nav(b: BoardState, k: KeyPress) -> (int, int, int, Seq<usize>) {
    let col = b.selected_col as int;
    let sc = b.scroll_offset as int;
    let row = b.selected_row as int;
    let offs = b.col_scroll_offsets@;
    let total = b.columns.len() as int;
    if goes_left(k) {
        if col > 0 {
            let c = col - 1;
            (c, if c < sc { c } else { sc }, clamped_row(b, c, row), offs)
        } else {
            (col, sc, row, offs)
        }
    } else if goes_right(k) {
        if col < total - 1 {
            let c = col + 1;
            let vis = if total < 5 { total } else { 5 };
            (c, if c >= sc + vis { c - (vis - 1) } else { sc }, clamped_row(b, c, row), offs)
        } else {
            (col, sc, row, offs)
        }
    } else if goes_down(k) {
        let len = b.columns[col].issue_indices.len() as int;
        if len > 0 && row < len - 1 {
            (col, sc, row + 1, scrolled(offs, col, row + 1))
        } else {
            (col, sc, row, offs)
        }
    } else if goes_up(k) {
        if row > 0 {
            (col, sc, row - 1, scrolled(offs, col, row - 1))
        } else {
            (col, sc, row, offs)
        }
    } else if is_char(k, 'g') {
        (col, sc, 0, if col < offs.len() { offs.update(col, 0) } else { offs })
    } else if is_char(k, 'G') {
        let len = b.columns[col].issue_indices.len() as int;
        let r = if len > 0 { len - 1 } else { 0 };
        (col, sc, r, scrolled(offs, col, r))
    } else {
        (col, sc, row, offs)
    }
}

/// The board's offsets leave room to add what scrolling adds.
pub open spec fn offsets_fit(b: BoardState) -> bool {
    &&& b.scroll_offset + 5 <= usize::MAX
    &&& forall|i: int| 0 <= i < b.col_scroll_offsets.len() ==> #[trigger] b.col_scroll_offsets[i] + 5 <= usize::MAX
}

fn clamp_row(b: &mut BoardState)
    requires
        old(b).wf(),
    ensures
        final(b).selected_row == clamped_row(*old(b), old(b).selected_col as int, old(b).selected_row as int),
        final(b).columns@ == old(b).columns@,
        final(b).selected_col == old(b).selected_col,
        final(b).scroll_offset == old(b).scroll_offset,
        final(b).col_scroll_offsets@ == old(b).col_scroll_offsets@,
{
    if b.columns.len() == 0 {
        b.selected_row = 0;
        return;
    }
    let len = b.columns[b.selected_col].issue_indices.len();
    if len == 0 {
        b.selected_row = 0;
    } else if b.selected_row >= len {
        b.selected_row = len - 1;
    }
}

fn adjust_col_scroll(b: &mut BoardState)
    requires
        old(b).selected_col < usize::MAX,
        forall|i: int| 0 <= i < old(b).col_scroll_offsets.len() ==> #[trigger] old(b).col_scroll_offsets[i] + 5 <= usize::MAX,
    ensures
        final(b).col_scroll_offsets@ == scrolled(
            old(b).col_scroll_offsets@,
            old(b).selected_col as int,
            old(b).selected_row as int,
        ),
        final(b).columns@ == old(b).columns@,
        final(b).selected_col == old(b).selected_col,
        final(b).selected_row == old(b).selected_row,
        final(b).scroll_offset == old(b).scroll_offset,
{
    let col = b.selected_col;
    let row = b.selected_row;
    let ghost o0 = b.col_scroll_offsets@;
    if col >= b.col_scroll_offsets.len() {
        resize_zero(&mut b.col_scroll_offsets, col + 1);
        assert(b.col_scroll_offsets@ =~= o0 + Seq::new((col + 1 - o0.len()) as nat, |i: int| 0usize));
    }
    let sc = b.col_scroll_offsets[col];
    if row < sc {
        b.col_scroll_offsets.set(col, row);
    } else if row - sc >= 5 {
        b.col_scroll_offsets.set(col, row - 4);
    }
    assert(b.col_scroll_offsets@ =~= scrolled(o0, col as int, row as int));
}

// ── Requests ─────────────────────────────────────────────────────────

/// What a board key asks of the screen beyond the board's own state.
#[derive(Debug, Clone, PartialEq, Eq)]
pub enum BoardRequest {
    Nothing,
    /// Leave the board for the dashboard.
    Back,
    /// Fetch the user's issues again, tagged with this generation.
    Refresh(u64),
    /// Open the issue's detail, fetching its transitions, editable fields and comments.
    OpenDetail(String),
    /// Open the transition picker for the issue, fetching its transitions.
    PickTransition(String),
    /// Edit text in the external editor; `context` says what it is for.
    LaunchEditor { content: String, context: String },
    /// Choose the project of a new issue among these (key, name) pairs.
    ChooseProject(Vec<(String, String)>),
    /// Tell the user that an issue cannot be created.
    Error { title: String, message: String },
}

/// The key of the selected issue, if the selection names a shown issue.
pub open spec fn selected_key(b: BoardState, is: Seq<IssueView>, f: Option<Seq<char>>, sd: bool) -> Option<Seq<char>> {
    if b.selected_col < b.columns.len() && b.selected_row < b.columns[b.selected_col as int].issue_indices.len() {
        let g = b.columns[b.selected_col as int].issue_indices[b.selected_row as int] as int;
        let sp = shown_positions(is, f, sd);
        if g < sp.len() {
            Some(is[sp[g]].key)
        } else {
            None
        }
    } else {
        None
    }
}

/// The projects known from the issues, as (key, name) pairs sorted without repeats.
pub open spec fn known_projects(is: Seq<IssueView>) -> Seq<(Seq<char>, Seq<char>)> {
    dedup_pairs(sort_pairs(is.map_values(|i: IssueView| (i.project_key, i.project_name))))
}

/// The project keys of the issues, sorted without repeats.
pub open spec fn known_keys(is: Seq<IssueView>) -> Seq<Seq<char>> {
    dedup_pairs(sort_pairs(is.map_values(|i: IssueView| (i.project_key, Seq::<char>::empty())))).map_values(
        |x: (Seq<char>, Seq<char>)| x.0,
    )
}

/// Where `c` first stands in `ks`.
pub open spec fn first_at(ks: Seq<Seq<char>>, c: Seq<char>) -> Option<int>
    decreases ks.len(),
{
    if ks.len() == 0 {
        None
    } else {
        match first_at(ks.drop_last(), c) {
            Some(i) => Some(i),
            None => if ks.last() == c {
                Some(ks.len() - 1)
            } else {
                None
            },
        }
    }
}

/// The next project filter: the first key where none is chosen, else the key after the
/// chosen one (after the first key, where the chosen one is not known), and none after the
/// last.
pub open spec fn next_filter(ks: Seq<Seq<char>>, cur: Option<Seq<char>>) -> Option<Seq<char>> {
    match cur {
        None => Some(ks[0]),
        Some(c) => {
            let idx = match first_at(ks, c) {
                Some(i) => i,
                None => 0,
            };
            if idx + 1 < ks.len() {
                Some(ks[idx + 1])
            } else {
                None
            }
        },
    }
}

proof fn lemma_first_at_range(ks: Seq<Seq<char>>, c: Seq<char>)
    ensures
        first_at(ks, c) matches Some(i) ==> 0 <= i < ks.len() && ks[i] == c,
        first_at(ks, c) is None ==> forall|i: int| 0 <= i < ks.len() ==> ks[i] != c,
    decreases ks.len(),
{
    if ks.len() > 0 {
        lemma_first_at_range(ks.drop_last(), c);
        assert forall|i: int| 0 <= i < ks.len() - 1 implies ks.drop_last()[i] == ks[i] by {}
    }
}

impl JiraBoard {
    /// The key of the selected issue, if the selection names a shown issue.
    fn selected_issue_key(&self) -> (r: Option<String>)
        ensures
            opt_text(r) == selected_key(self.board, self.issues_view(), opt_text(self.project_filter), self.show_done),
    {
        let ghost is = self.issues_view();
        let pos = self.filtered_issues();
        proof {
            lemma_shown_positions_range(is, opt_text(self.project_filter), self.show_done);
        }
        let col = self.board.selected_col;
        if col >= self.board.columns.len() {
            return None;
        }
        let row = self.board.selected_row;
        if row >= self.board.columns[col].issue_indices.len() {
            return None;
        }
        let g = self.board.columns[col].issue_indices[row];
        if g >= pos.len() {
            return None;
        }
        assert(pos@.map_values(|u: usize| u as int)[g as int] == pos[g as int] as int);
        let i = pos[g];
        Some(self.issues[i].key.clone())
    }

    /// The request to create an issue: choose among the known projects, or an error where
    /// no project is known.
    fn create_request(&self) -> (r: BoardRequest)
        ensures
            known_projects(self.issues_view()).len() == 0 ==> (r matches BoardRequest::Error { title, message } && title@
                == "Cannot Create Issue"@ && message@ == "No projects found. Issues must be fetched first."@),
            known_projects(self.issues_view()).len() > 0 ==> (r matches BoardRequest::ChooseProject(v) && pv(v@)
                == known_projects(self.issues_view())),
    {
        let ghost is = self.issues_view();
        let mut xs: Vec<(String, String)> = Vec::new();
        let mut i: usize = 0;
        while i < self.issues.len()
            invariant
                i <= self.issues.len(),
                is == self.issues_view(),
                pv(xs@) == is.subrange(0, i as int).map_values(|v: IssueView| (v.project_key, v.project_name)),
            decreases self.issues.len() - i,
        {
            let ghost before = xs@;
            assert(is[i as int] == self.issues[i as int]@);
            xs.push((self.issues[i].project_key.clone(), self.issues[i].project_name.clone()));
            assert(pv(xs@) =~= pv(before).push((is[i as int].project_key, is[i as int].project_name)));
            assert(pv(xs@) =~= is.subrange(0, i + 1).map_values(|v: IssueView| (v.project_key, v.project_name)));
            i = i + 1;
        }
        assert(is.subrange(0, i as int) =~= is);
        let ps = sorted_unique(&xs);
        if ps.len() == 0 {
            BoardRequest::Error {
                title: string_from_chars(&str_chars("Cannot Create Issue")),
                message: string_from_chars(&str_chars("No projects found. Issues must be fetched first.")),
            }
        } else {
            BoardRequest::ChooseProject(ps)
        }
    }

    /// The project keys of the issues, sorted without repeats.
    fn project_keys(&self) -> (r: Vec<String>)
        ensures
            r@.map_values(|k: String| k@) == known_keys(self.issues_view()),
    {
        let ghost is = self.issues_view();
        let mut xs: Vec<(String, String)> = Vec::new();
        let mut i: usize = 0;
        while i < self.issues.len()
            invariant
                i <= self.issues.len(),
                is == self.issues_view(),
                pv(xs@) == is.subrange(0, i as int).map_values(|v: IssueView| (v.project_key, Seq::<char>::empty())),
            decreases self.issues.len() - i,
        {
            let ghost before = xs@;
            assert(is[i as int] == self.issues[i as int]@);
            xs.push((self.issues[i].project_key.clone(), String::new()));
            assert(pv(xs@) =~= pv(before).push((is[i as int].project_key, Seq::<char>::empty())));
            assert(pv(xs@) =~= is.subrange(0, i + 1).map_values(|v: IssueView| (v.project_key, Seq::<char>::empty())));
            i = i + 1;
        }
        assert(is.subrange(0, i as int) =~= is);
        let ps = sorted_unique(&xs);
        let ghost kv = pv(ps@).map_values(|x: (Seq<char>, Seq<char>)| x.0);
        let mut r: Vec<String> = Vec::new();
        let mut k: usize = 0;
        while k < ps.len()
            invariant
                k <= ps.len(),
                kv == pv(ps@).map_values(|x: (Seq<char>, Seq<char>)| x.0),
                r@.map_values(|s: String| s@) == kv.subrange(0, k as int),
            decreases ps.len() - k,
        {
            let ghost before = r@;
            assert(kv[k as int] == ps[k as int].0@);
            r.push(ps[k].0.clone());
            assert(r@.map_values(|s: String| s@) =~= before.map_values(|s: String| s@).push(kv[k as int]));
            assert(r@.map_values(|s: String| s@) =~= kv.subrange(0, k + 1));
            k = k + 1;
        }
        assert(kv.subrange(0, k as int) =~= kv);
        r
    }

    /// Move the selection by a key that moves it, on a board with columns.
    fn move_selection(&mut self, key: KeyPress)
        requires
            old(self).board.wf(),
            old(self).board.columns.len() > 0,
            offsets_fit(old(self).board),
            moves(key),
        ensures
            (final(self).board.selected_col as int, final(self).board.scroll_offset as int,
                final(self).board.selected_row as int, final(self).board.col_scroll_offsets@) == nav(
                old(self).board,
                key,
            ),
            final(self).board.columns@ == old(self).board.columns@,
            final(self).issues == old(self).issues,
            final(self).project_filter == old(self).project_filter,
            final(self).show_done == old(self).show_done,
            final(self).generation == old(self).generation,
            final(self).refreshing == old(self).refreshing,
    {
        let total = self.board.columns.len();
        let is = |c: char| -> (b: bool)
            ensures
                b == is_char(key, c),
        {
            match key.code {
                KeyCode::Char(d) => d == c,
                _ => false,
            }
        };
        if is('h') || key.code == KeyCode::Left {
            if self.board.selected_col > 0 {
                self.board.selected_col = self.board.selected_col - 1;
                if self.board.selected_col < self.board.scroll_offset {
                    self.board.scroll_offset = self.board.selected_col;
                }
                clamp_row(&mut self.board);
            }
        } else if is('l') || key.code == KeyCode::Right {
            if self.board.selected_col < total - 1 {
                self.board.selected_col = self.board.selected_col + 1;
                let vis = if total < 5 { total } else { 5 };
                if self.board.selected_col >= self.board.scroll_offset + vis {
                    self.board.scroll_offset = self.board.selected_col - (vis - 1);
                }
                clamp_row(&mut self.board);
            }
        } else if is('j') || key.code == KeyCode::Down {
            let len = self.board.columns[self.board.selected_col].issue_indices.len();
            if len > 0 && self.board.selected_row < len - 1 {
                self.board.selected_row = self.board.selected_row + 1;
                adjust_col_scroll(&mut self.board);
            }
        } else if is('k') || key.code == KeyCode::Up {
            if self.board.selected_row > 0 {
                self.board.selected_row = self.board.selected_row - 1;
                adjust_col_scroll(&mut self.board);
            }
        } else if is('g') {
            self.board.selected_row = 0;
            let col = self.board.selected_col;
            if col < self.board.col_scroll_offsets.len() {
                self.board.col_scroll_offsets.set(col, 0);
            }
        } else {
            let len = self.board.columns[self.board.selected_col].issue_indices.len();
            self.board.selected_row = if len > 0 { len - 1 } else { 0 };
            adjust_col_scroll(&mut self.board);
        }
    }

    /// The request that `Enter`, `s` or `c` makes for the selected issue.
    fn issue_request(&self, key: KeyPress) -> (r: BoardRequest)
        requires
            key.code == KeyCode::Enter || is_char(key, 's') || is_char(key, 'c'),
        ensures
            match selected_key(self.board, self.issues_view(), opt_text(self.project_filter), self.show_done) {
                None => r == BoardRequest::Nothing,
                Some(k) => if key.code == KeyCode::Enter {
                    r matches BoardRequest::OpenDetail(x) && x@ == k
                } else if is_char(key, 's') {
                    r matches BoardRequest::PickTransition(x) && x@ == k
                } else {
                    r matches BoardRequest::LaunchEditor { content, context } && content@.len() == 0
                        && context@ == "comment:"@ + k
                },
            },
    {
        match self.selected_issue_key() {
            None => BoardRequest::Nothing,
            Some(k) => match key.code {
                KeyCode::Enter => BoardRequest::OpenDetail(k),
                KeyCode::Char('s') => BoardRequest::PickTransition(k),
                _ => {
                    let mut ctx = str_chars("comment:");
                    let kc = str_chars(k.as_str());
                    crate::text::push_chars(&mut ctx, &kc);
                    BoardRequest::LaunchEditor { content: String::new(), context: string_from_chars(&ctx) }
                },
            },
        }
    }

    /// The next project filter, where any project is known.
    fn next_project_filter(&self, keys: &Vec<String>) -> (r: Option<String>)
        requires
            keys.len() > 0,
        ensures
            opt_text(r) == next_filter(keys@.map_values(|k: String| k@), opt_text(self.project_filter)),
    {
        let ghost kv = keys@.map_values(|k: String| k@);
        match &self.project_filter {
            None => Some(keys[0].clone()),
            Some(cur) => {
                let mut idx: usize = 0;
                let mut found = false;
                let mut i: usize = 0;
                while i < keys.len()
                    invariant
                        i <= keys.len(),
                        idx < keys.len(),
                        kv == keys@.map_values(|k: String| k@),
                        first_at(kv.subrange(0, i as int), cur@) == if found {
                            Some(idx as int)
                        } else {
                            None::<int>
                        },
                        !found ==> idx == 0,
                    decreases keys.len() - i,
                {
                    let ghost pre = kv.subrange(0, i + 1);
                    assert(pre.drop_last() =~= kv.subrange(0, i as int));
                    assert(pre.last() == keys[i as int]@);
                    if !found && keys[i] == *cur {
                        idx = i;
                        found = true;
                    }
                    i = i + 1;
                }
                assert(kv.subrange(0, i as int) =~= kv);
                if idx + 1 < keys.len() {
                    Some(keys[idx + 1].clone())
                } else {
                    None
                }
            },
        }
    }

    /// Handle a key on the board. Without columns only `Esc`/`q` (back), `R` (refresh) and
    /// `n` (new issue) act; with columns, `h`/`l` and the arrows move between columns and
    /// rows, `g`/`G` jump to the top and bottom, `Enter` opens the selected issue, `s` its
    /// transitions, `c` a comment on it, `p` cycles the project filter, `D` shows or hides
    /// done issues.
    #[verifier::spinoff_prover]
    #[verifier::rlimit(60)]
    pub fn handle_key(&mut self, key: KeyPress) -> (r: BoardRequest)
        requires
            old(self).board.wf(),
            offsets_fit(old(self).board),
            is_char(key, 'R') ==> old(self).generation < u64::MAX,
        ensures
            final(self).issues == old(self).issues,
            is_char(key, 'R') ==> {
                &&& final(self).generation == old(self).generation + 1
                &&& final(self).refreshing
                &&& r == BoardRequest::Refresh((old(self).generation + 1) as u64)
                &&& final(self).board == old(self).board
                &&& final(self).project_filter == old(self).project_filter
                &&& final(self).show_done == old(self).show_done
            },
            !is_char(key, 'R') ==> final(self).generation == old(self).generation && final(self).refreshing
                == old(self).refreshing,
            goes_back(key) ==> r == BoardRequest::Back && final(self).board == old(self).board
                && final(self).project_filter == old(self).project_filter && final(self).show_done
                == old(self).show_done,
            is_char(key, 'n') ==> final(self).board == old(self).board && final(self).project_filter
                == old(self).project_filter && final(self).show_done == old(self).show_done && (
            if known_projects(old(self).issues_view()).len() == 0 {
                r matches BoardRequest::Error { title, message } && title@ == "Cannot Create Issue"@
                    && message@ == "No projects found. Issues must be fetched first."@
            } else {
                r matches BoardRequest::ChooseProject(v) && pv(v@) == known_projects(old(self).issues_view())
            }),
            old(self).board.columns.len() == 0 && !goes_back(key) && !is_char(key, 'R') && !is_char(key, 'n')
                ==> r == BoardRequest::Nothing && final(self).board == old(self).board
                && final(self).project_filter == old(self).project_filter && final(self).show_done
                == old(self).show_done,
            old(self).board.columns.len() > 0 && moves(key) ==> {
                &&& r == BoardRequest::Nothing
                &&& (final(self).board.selected_col as int, final(self).board.scroll_offset as int,
                    final(self).board.selected_row as int, final(self).board.col_scroll_offsets@) == nav(
                    old(self).board,
                    key,
                )
                &&& final(self).board.columns@ == old(self).board.columns@
                &&& final(self).project_filter == old(self).project_filter
                &&& final(self).show_done == old(self).show_done
            },
            old(self).board.columns.len() > 0 && (key.code == KeyCode::Enter || is_char(key, 's') || is_char(
                key,
                'c',
            )) ==> {
                &&& final(self).board == old(self).board
                &&& final(self).project_filter == old(self).project_filter
                &&& final(self).show_done == old(self).show_done
                &&& match selected_key(
                    old(self).board,
                    old(self).issues_view(),
                    opt_text(old(self).project_filter),
                    old(self).show_done,
                ) {
                    None => r == BoardRequest::Nothing,
                    Some(k) => if key.code == KeyCode::Enter {
                        r matches BoardRequest::OpenDetail(x) && x@ == k
                    } else if is_char(key, 's') {
                        r matches BoardRequest::PickTransition(x) && x@ == k
                    } else {
                        r matches BoardRequest::LaunchEditor { content, context } && content@.len() == 0
                            && context@ == "comment:"@ + k
                    },
                }
            },
            old(self).board.columns.len() > 0 && is_char(key, 'p') ==> {
                &&& r == BoardRequest::Nothing
                &&& final(self).show_done == old(self).show_done
                &&& if known_keys(old(self).issues_view()).len() == 0 {
                    final(self).board == old(self).board && final(self).project_filter
                        == old(self).project_filter
                } else {
                    &&& opt_text(final(self).project_filter) == next_filter(
                        known_keys(old(self).issues_view()),
                        opt_text(old(self).project_filter),
                    )
                    &&& rebuilt(
                        old(self).board,
                        final(self).board,
                        old(self).issues_view(),
                        opt_text(final(self).project_filter),
                        old(self).show_done,
                    )
                }
            },
            old(self).board.columns.len() > 0 && is_char(key, 'D') ==> {
                &&& r == BoardRequest::Nothing
                &&& final(self).show_done == !old(self).show_done
                &&& final(self).project_filter == old(self).project_filter
                &&& rebuilt(
                    old(self).board,
                    final(self).board,
                    old(self).issues_view(),
                    opt_text(old(self).project_filter),
                    !old(self).show_done,
                )
            },
            old(self).board.columns.len() > 0 && !moves(key) && !goes_back(key) && key.code != KeyCode::Enter
                && !is_char(key, 's') && !is_char(key, 'c') && !is_char(key, 'n') && !is_char(key, 'p')
                && !is_char(key, 'D') && !is_char(key, 'R') ==> r == BoardRequest::Nothing
                && final(self).board == old(self).board && final(self).project_filter
                == old(self).project_filter && final(self).show_done == old(self).show_done,
    {
        let total = self.board.columns.len();
        let is = |c: char| -> (b: bool)
            ensures
                b == is_char(key, c),
        {
            match key.code {
                KeyCode::Char(d) => d == c,
                _ => false,
            }
        };
        if key.code == KeyCode::Esc || is('q') {
            return BoardRequest::Back;
        }
        if is('R') {
            self.generation = self.generation + 1;
            self.refreshing = true;
            return BoardRequest::Refresh(self.generation);
        }
        if is('n') {
            return self.create_request();
        }
        if total == 0 {
            return BoardRequest::Nothing;
        }
        if is('h') || key.code == KeyCode::Left || is('l') || key.code == KeyCode::Right || is('j')
            || key.code == KeyCode::Down || is('k') || key.code == KeyCode::Up || is('g') || is('G') {
            self.move_selection(key);
            return BoardRequest::Nothing;
        }
        if key.code == KeyCode::Enter || is('s') || is('c') {
            return self.issue_request(key);
        }
        if is('p') {
            let keys = self.project_keys();
            if keys.len() == 0 {
                return BoardRequest::Nothing;
            }
            self.project_filter = self.next_project_filter(&keys);
            self.rebuild_columns();
            return BoardRequest::Nothing;
        }
        if is('D') {
            self.show_done = !self.show_done;
            self.rebuild_columns();
            return BoardRequest::Nothing;
        }
        BoardRequest::Nothing
    }
}

impl JiraBoard {
    /// Take the issues that a fetch tagged with `generation` returned: they replace the
    /// board's issues unless a later fetch was asked for, and the columns are rebuilt; the
    /// refresh is over either way. Returns whether they were taken.
    pub fn receive_issues(&mut self, generation: u64, issues: Vec<JiraIssue>) -> (taken: bool)
        ensures
            taken == (generation >= old(self).generation),
            !final(self).refreshing,
            final(self).generation == old(self).generation,
            final(self).project_filter == old(self).project_filter,
            final(self).show_done == old(self).show_done,
            taken ==> {
                &&& final(self).issues@ == issues@
                &&& !final(self).loading
                &&& final(self).last_error is None
                &&& rebuilt(
                    old(self).board,
                    final(self).board,
                    final(self).issues_view(),
                    opt_text(old(self).project_filter),
                    old(self).show_done,
                )
            },
            !taken ==> final(self).issues == old(self).issues && final(self).board == old(self).board
                && final(self).loading == old(self).loading && final(self).last_error == old(self).last_error,
    {
        if generation >= self.generation {
            self.issues = issues;
            self.loading = false;
            self.refreshing = false;
            self.last_error = None;
            self.rebuild_columns();
            true
        } else {
            self.refreshing = false;
            false
        }
    }

    /// Take an error from the JIRA service: the loading and the refresh are over, and the
    /// message `JIRA: context — error` is kept as the last error and returned for a
    /// notification.
    pub fn receive_error(&mut self, context: &str, error: &JiraError) -> (msg: String)
        ensures
            msg@ == "JIRA: "@ + context@ + " — "@ + error_text(
                error.status_code,
                error.error_messages.deep_view(),
                error.field_errors.deep_view(),
            ),
            final(self).last_error matches Some(e) && e@ == msg@,
            !final(self).loading,
            !final(self).refreshing,
            final(self).issues == old(self).issues,
            final(self).board == old(self).board,
            final(self).project_filter == old(self).project_filter,
            final(self).show_done == old(self).show_done,
            final(self).generation == old(self).generation,
    {
        let msg = error_message(context, error);
        self.last_error = Some(string_from_chars(&str_chars(msg.as_str())));
        self.loading = false;
        self.refreshing = false;
        msg
    }
}

// ── Issue detail and sync age ────────────────────────────────────────

/// The rows of an issue's detail view: status, priority, assignee, reporter and type; then
/// points, sprint, epic, labels and components where the issue has them; then the dates.
pub open spec fn field_names(i: IssueView) -> Seq<Seq<char>> {
    seq!["Status"@, "Priority"@, "Assignee"@, "Reporter"@, "Type"@] + (if i.story_points is Some {
        seq!["Points"@]
    } else {
        Seq::empty()
    }) + (if i.sprint is Some {
        seq!["Sprint"@]
    } else {
        Seq::empty()
    }) + (if i.epic is Some {
        seq!["Epic"@]
    } else {
        Seq::empty()
    }) + (if i.labels.len() > 0 {
        seq!["Labels"@]
    } else {
        Seq::empty()
    }) + (if i.components.len() > 0 {
        seq!["Components"@]
    } else {
        Seq::empty()
    }) + seq!["Created"@, "Updated"@]
}

fn push_name(out: &mut Vec<String>, name: &str)
    ensures
        final(out).deep_view() == old(out).deep_view().push(name@),
{
    let ghost before = out.deep_view();
    out.push(string_from_chars(&str_chars(name)));
    assert(out.deep_view() =~= before.push(name@));
}

/// The names of the rows of an issue's detail view.
pub fn build_field_names(iss: &JiraIssue) -> (r: Vec<String>)
    ensures
        r.deep_view() == field_names(iss@),
{
    let mut n: Vec<String> = Vec::new();
    push_name(&mut n, "Status");
    push_name(&mut n, "Priority");
    push_name(&mut n, "Assignee");
    push_name(&mut n, "Reporter");
    push_name(&mut n, "Type");
    let ghost a = n.deep_view();
    if iss.story_points.is_some() {
        push_name(&mut n, "Points");
    }
    let ghost b = n.deep_view();
    if iss.sprint.is_some() {
        push_name(&mut n, "Sprint");
    }
    let ghost c = n.deep_view();
    if iss.epic.is_some() {
        push_name(&mut n, "Epic");
    }
    let ghost d = n.deep_view();
    if iss.labels.len() > 0 {
        push_name(&mut n, "Labels");
    }
    let ghost e = n.deep_view();
    if iss.components.len() > 0 {
        push_name(&mut n, "Components");
    }
    push_name(&mut n, "Created");
    push_name(&mut n, "Updated");
    assert(n.deep_view() =~= field_names(iss@));
    n
}

/// The first issue with the key.
pub open spec fn first_with_key(is: Seq<IssueView>, key: Seq<char>) -> Option<IssueView>
    decreases is.len(),
{
    if is.len() == 0 {
        None
    } else if is[0].key == key {
        Some(is[0])
    } else {
        first_with_key(is.drop_first(), key)
    }
}

proof fn lemma_first_with_key(is: Seq<IssueView>, key: Seq<char>, k: int)
    requires
        0 <= k <= is.len(),
        forall|j: int| 0 <= j < k ==> (#[trigger] is[j]).key != key,
    ensures
        first_with_key(is, key) == first_with_key(is.skip(k), key),
    decreases k,
{
    if k > 0 {
        lemma_first_with_key(is.drop_first(), key, k - 1);
        assert(is.drop_first().skip(k - 1) =~= is.skip(k));
    } else {
        assert(is.skip(0) =~= is);
    }
}

impl JiraBoard {
    /// How many rows the detail view of the issue `issue_key` has: as many as it has row
    /// names, or none where the board has no such issue.
    pub fn count_detail_fields_by_key(&self, issue_key: &str) -> (r: usize)
        ensures
            r == match first_with_key(self.issues_view(), issue_key@) {
                Some(i) => field_names(i).len(),
                None => 0,
            },
    {
        let ghost is = self.issues_view();
        let mut k: usize = 0;
        while k < self.issues.len()
            invariant
                k <= self.issues.len(),
                is == self.issues_view(),
                forall|j: int| 0 <= j < k ==> (#[trigger] is[j]).key != issue_key@,
            decreases self.issues.len() - k,
        {
            if crate::yaml::eq_chars(&str_chars(self.issues[k].key.as_str()), &str_chars(issue_key)) {
                proof {
                    lemma_first_with_key(is, issue_key@, k as int);
                    assert(is.skip(k as int)[0] == is[k as int]);
                }
                let iss = &self.issues[k];
                let mut c: usize = 5;
                if iss.story_points.is_some() {
                    c = c + 1;
                }
                if iss.sprint.is_some() {
                    c = c + 1;
                }
                if iss.epic.is_some() {
                    c = c + 1;
                }
                if iss.labels.len() > 0 {
                    c = c + 1;
                }
                if iss.components.len() > 0 {
                    c = c + 1;
                }
                return c + 2;
            }
            k = k + 1;
        }
        proof {
            lemma_first_with_key(is, issue_key@, k as int);
        }
        0
    }
}

/// How long ago the last sync was: seconds under a minute, minutes under an hour, else hours.
pub open spec fn last_sync_text(secs: u64) -> Seq<char> {
    if secs < 60 {
        dec(secs as nat) + "s ago"@
    } else if secs < 3600 {
        dec((secs / 60) as nat) + "m ago"@
    } else {
        dec((secs / 3600) as nat) + "h ago"@
    }
}

/// The age of the last sync, from the whole seconds since it.
pub fn format_last_sync(elapsed_secs: u64) -> (r: String)
    ensures
        r@ == last_sync_text(elapsed_secs),
{
    let mut t: Vec<char> = Vec::new();
    if elapsed_secs < 60 {
        push_dec(&mut t, elapsed_secs);
        push_str(&mut t, "s ago");
    } else if elapsed_secs < 3600 {
        push_dec(&mut t, elapsed_secs / 60);
        push_str(&mut t, "m ago");
    } else {
        push_dec(&mut t, elapsed_secs / 3600);
        push_str(&mut t, "h ago");
    }
    string_from_chars(&t)
}

// ── Results of the JIRA service ──────────────────────────────────────

/// The notification for an error: `JIRA: context — error`.
pub open spec fn error_note(context: Seq<char>, e: JiraError) -> Seq<char> {
    "JIRA: "@ + context + " — "@ + error_text(e.status_code, e.error_messages.deep_view(), e.field_errors.deep_view())
}

/// What a batch of results has done so far: the issues, whether loading and refreshing go
/// on, the last error, whether the columns need rebuilding, and the notifications.
pub struct TickView {
    pub issues: Seq<IssueView>,
    pub loading: bool,
    pub refreshing: bool,
    pub last_error: Option<Seq<char>>,
    pub rebuild: bool,
    pub notes: Seq<Seq<char>>,
}

/// The results taken in order: issues of a fetch no older than `generation` replace the
/// board's and end the loading, the refresh and the error; a stale fetch only ends the
/// refresh; an error ends the loading and the refresh and becomes the last error and a
/// notification; other results change nothing here.
pub open spec fn after_results(t: TickView, generation: u64, rs: Seq<JiraResult>) -> TickView
    decreases rs.len(),
{
    if rs.len() == 0 {
        t
    } else {
        let t1 = after_results(t, generation, rs.drop_last());
        match rs.last() {
            JiraResult::Issues { generation: g, issues } => if g >= generation {
                TickView {
                    issues: issues@.map_values(|i: JiraIssue| i@),
                    loading: false,
                    refreshing: false,
                    last_error: None,
                    rebuild: true,
                    ..t1
                }
            } else {
                TickView { refreshing: false, ..t1 }
            },
            JiraResult::Error { context, error } => {
                let m = error_note(context@, error);
                TickView { notes: t1.notes.push(m), last_error: Some(m), loading: false, refreshing: false, ..t1 }
            },
            _ => t1,
        }
    }
}

fn error_message(context: &str, error: &JiraError) -> (r: String)
    ensures
        r@ == error_note(context@, *error),
{
    let mut m = str_chars("JIRA: ");
    crate::text::push_str(&mut m, context);
    crate::text::push_str(&mut m, " — ");
    let d = error.display();
    crate::text::push_str(&mut m, d.as_str());
    string_from_chars(&m)
}

impl JiraBoard {
    pub open spec fn tick_start(&self) -> TickView {
        TickView {
            issues: self.issues_view(),
            loading: self.loading,
            refreshing: self.refreshing,
            last_error: opt_text(self.last_error),
            rebuild: false,
            notes: Seq::empty(),
        }
    }

    /// Takes the results that the JIRA service sent since the last tick, in order, rebuilds
    /// the columns once where new issues were taken, and returns the notifications.
    pub fn on_tick(&mut self, results: Vec<JiraResult>) -> (notes: Vec<String>)
        ensures
            ({
                let t = after_results(old(self).tick_start(), old(self).generation, results@);
                &&& final(self).issues_view() == t.issues
                &&& final(self).loading == t.loading
                &&& final(self).refreshing == t.refreshing
                &&& opt_text(final(self).last_error) == t.last_error
                &&& notes.deep_view() == t.notes
                &&& t.rebuild ==> rebuilt(
                    old(self).board,
                    final(self).board,
                    t.issues,
                    opt_text(old(self).project_filter),
                    old(self).show_done,
                )
                &&& !t.rebuild ==> final(self).board == old(self).board
            }),
            final(self).generation == old(self).generation,
            final(self).project_filter == old(self).project_filter,
            final(self).show_done == old(self).show_done,
    {
        let ghost start = self.tick_start();
        let ghost gen = self.generation;
        let ghost all = results@;
        let ghost board0 = self.board;
        let ghost filter = self.project_filter;
        let ghost sd = self.show_done;
        let n = results.len();
        let mut rest = results;
        let mut notes: Vec<String> = Vec::new();
        let mut rebuild = false;
        let mut k: usize = 0;
        assert(all.subrange(0, 0) =~= Seq::<JiraResult>::empty());
        while rest.len() > 0
            invariant
                k + rest@.len() == all.len(),
                all.len() == n,
                rest@ == all.subrange(k as int, all.len() as int),
                self.generation == gen,
                self.board == board0,
                self.project_filter == filter,
                self.show_done == sd,
                ({
                    let t = after_results(start, gen, all.subrange(0, k as int));
                    &&& self.issues_view() == t.issues
                    &&& self.loading == t.loading
                    &&& self.refreshing == t.refreshing
                    &&& opt_text(self.last_error) == t.last_error
                    &&& notes.deep_view() == t.notes
                    &&& rebuild == t.rebuild
                }),
            decreases rest.len(),
        {
            let ghost pre = all.subrange(0, k as int);
            let ghost nxt = all.subrange(0, k + 1);
            assert(nxt.drop_last() =~= pre);
            assert(rest@[0] == all[k as int]);
            let r = rest.remove(0);
            assert(rest@ =~= all.subrange(k + 1, all.len() as int));
            match r {
                JiraResult::Issues { generation, issues } => {
                    if generation >= self.generation {
                        self.issues = issues;
                        self.loading = false;
                        self.refreshing = false;
                        self.last_error = None;
                        rebuild = true;
                    } else {
                        self.refreshing = false;
                    }
                },
                JiraResult::Error { context, error } => {
                    let m = error_message(context.as_str(), &error);
                    self.last_error = Some(string_from_chars(&str_chars(m.as_str())));
                    self.loading = false;
                    self.refreshing = false;
                    let ghost before = notes.deep_view();
                    notes.push(m);
                    assert(notes.deep_view() =~= before.push(error_note(context@, error)));
                },
                _ => {},
            }
            k = k + 1;
        }
        assert(all.subrange(0, all.len() as int) =~= all);
        if rebuild {
            self.rebuild_columns();
        }
        notes
    }
}

} // verus!
