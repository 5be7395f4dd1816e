//! The small enumerations of the data model: project status, project priority and
//! issue status, with their text forms.
use vstd::prelude::*;
use crate::text::{
    is_ascii_seq, lowercase_eq, lowers_to, lowercase_of, push_chars, push_str, range_eq, str_chars,
    string_from_chars, to_lowercase, trim, trimmed,
};

verus! {

broadcast use vstd::string::group_string_axioms;

/// `s[lo..hi]` equals the literal `lit`.
fn chars_eq_lit(s: &Vec<char>, lit: &str) -> (b: bool)
    ensures
        b == (s@ == lit@),
{
    let l = str_chars(lit);
    let b = range_eq(s, 0, s.len(), &l);
    assert(s@.subrange(0, s@.len() as int) =~= s@);
    b
}

/// A `String` holding the literal `lit`.
pub fn string_of(lit: &str) -> (r: String)
    ensures
        r@ == lit@,
{
    let v = str_chars(lit);
    string_from_chars(&v)
}

// ── Project status ───────────────────────────────────────────────────

#[derive(Clone, Copy, Debug, PartialEq, Eq, Hash, Structural)]
pub enum Status {
    Active,
    Blocked,
    Pending,
    Parked,
    Done,
}

/// The lower-case word that names a project status.
pub open spec fn status_name(s: Status) -> Seq<char> {
    match s {
        Status::Active => "active"@,
        Status::Blocked => "blocked"@,
        Status::Pending => "pending"@,
        Status::Parked => "parked"@,
        Status::Done => "done"@,
    }
}

/// What `str::parse::<Status>` gives: the status whose name equals the lower-cased text.
pub open spec fn parse_status(s: Seq<char>) -> Result<Status, ()> {
    if lowercase_eq(s, "active"@) {
        Ok(Status::Active)
    } else if lowercase_eq(s, "blocked"@) {
        Ok(Status::Blocked)
    } else if lowercase_eq(s, "pending"@) {
        Ok(Status::Pending)
    } else if lowercase_eq(s, "parked"@) {
        Ok(Status::Parked)
    } else if lowercase_eq(s, "done"@) {
        Ok(Status::Done)
    } else {
        Err(())
    }
}

impl Status {
    /// The status's name (its `Display` form).
    pub fn to_string(&self) -> (r: String)
        ensures
            r@ == status_name(*self),
    {
        match self {
            Status::Active => string_of("active"),
            Status::Blocked => string_of("blocked"),
            Status::Pending => string_of("pending"),
            Status::Parked => string_of("parked"),
            Status::Done => string_of("done"),
        }
    }

    /// Parses a status name, ignoring case.
    pub fn parse(s: &str) -> (r: Result<Status, ()>)
        ensures
            r == parse_status(s@),
    {
        let l = to_lowercase(s);
        let lc = str_chars(l.as_str());
        proof {
            reveal_strlit("active");
            reveal_strlit("blocked");
            reveal_strlit("pending");
            reveal_strlit("parked");
            reveal_strlit("done");
            assert(is_ascii_seq("active"@));
            assert(is_ascii_seq("blocked"@));
            assert(is_ascii_seq("pending"@));
            assert(is_ascii_seq("parked"@));
            assert(is_ascii_seq("done"@));
        }
        if chars_eq_lit(&lc, "active") {
            Ok(Status::Active)
        } else if chars_eq_lit(&lc, "blocked") {
            Ok(Status::Blocked)
        } else if chars_eq_lit(&lc, "pending") {
            Ok(Status::Pending)
        } else if chars_eq_lit(&lc, "parked") {
            Ok(Status::Parked)
        } else if chars_eq_lit(&lc, "done") {
            Ok(Status::Done)
        } else {
            Err(())
        }
    }
}

impl Default for Status {
    fn default() -> (r: Status)
        ensures
            r == Status::Active,
    {
        Status::Active
    }
}

impl std::str::FromStr for Status {
    type Err = ();

    fn from_str(s: &str) -> (r: Result<Status, ()>)
        ensures
            r == parse_status(s@),
    {
        Status::parse(s)
    }
}

// ── Project priority ─────────────────────────────────────────────────

#[derive(Clone, Copy, Debug, PartialEq, Eq, Hash, Structural)]
pub enum Priority {
    High,
    Medium,
    Low,
}

pub open spec fn priority_name(p: Priority) -> Seq<char> {
    match p {
        Priority::High => "high"@,
        Priority::Medium => "medium"@,
        Priority::Low => "low"@,
    }
}

pub open spec fn parse_priority(s: Seq<char>) -> Result<Priority, ()> {
    if lowercase_eq(s, "high"@) {
        Ok(Priority::High)
    } else if lowercase_eq(s, "medium"@) {
        Ok(Priority::Medium)
    } else if lowercase_eq(s, "low"@) {
        Ok(Priority::Low)
    } else {
        Err(())
    }
}

impl Priority {
    pub fn to_string(&self) -> (r: String)
        ensures
            r@ == priority_name(*self),
    {
        match self {
            Priority::High => string_of("high"),
            Priority::Medium => string_of("medium"),
            Priority::Low => string_of("low"),
        }
    }

    pub fn parse(s: &str) -> (r: Result<Priority, ()>)
        ensures
            r == parse_priority(s@),
    {
        let l = to_lowercase(s);
        let lc = str_chars(l.as_str());
        proof {
            reveal_strlit("high");
            reveal_strlit("medium");
            reveal_strlit("low");
            assert(is_ascii_seq("high"@));
            assert(is_ascii_seq("medium"@));
            assert(is_ascii_seq("low"@));
        }
        if chars_eq_lit(&lc, "high") {
            Ok(Priority::High)
        } else if chars_eq_lit(&lc, "medium") {
            Ok(Priority::Medium)
        } else if chars_eq_lit(&lc, "low") {
            Ok(Priority::Low)
        } else {
            Err(())
        }
    }
}

impl Default for Priority {
    fn default() -> (r: Priority)
        ensures
            r == Priority::Medium,
    {
        Priority::Medium
    }
}

impl std::str::FromStr for Priority {
    type Err = ();

    fn from_str(s: &str) -> (r: Result<Priority, ()>)
        ensures
            r == parse_priority(s@),
    {
        Priority::parse(s)
    }
}

// ── Issue status ─────────────────────────────────────────────────────

#[derive(Clone, Copy, Debug, PartialEq, Eq, Hash, Structural)]
pub enum IssueStatus {
    Todo,
    Active,
    Blocked,
    Done,
}

pub open spec fn issue_status_name(s: IssueStatus) -> Seq<char> {
    match s {
        IssueStatus::Todo => "todo"@,
        IssueStatus::Active => "active"@,
        IssueStatus::Blocked => "blocked"@,
        IssueStatus::Done => "done"@,
    }
}

/// What `str::parse::<IssueStatus>` gives: the status named by the trimmed, lower-cased
/// text, or an error message that quotes that text.
pub open spec fn parse_issue_status(s: Seq<char>) -> Result<IssueStatus, Seq<char>> {
    let t = trim(s);
    if lowercase_eq(t, "todo"@) {
        Ok(IssueStatus::Todo)
    } else if lowercase_eq(t, "active"@) {
        Ok(IssueStatus::Active)
    } else if lowercase_eq(t, "blocked"@) {
        Ok(IssueStatus::Blocked)
    } else if lowercase_eq(t, "done"@) {
        Ok(IssueStatus::Done)
    } else {
        Err("unknown issue status: '"@ + lowercase_of(t) + "'"@)
    }
}

/// Kanban order: todo, active, blocked, done.
pub open spec fn issue_status_index(s: IssueStatus) -> int {
    match s {
        IssueStatus::Todo => 0,
        IssueStatus::Active => 1,
        IssueStatus::Blocked => 2,
        IssueStatus::Done => 3,
    }
}

pub open spec fn issue_status_at(i: int) -> IssueStatus {
    if i == 0 {
        IssueStatus::Todo
    } else if i == 1 {
        IssueStatus::Active
    } else if i == 2 {
        IssueStatus::Blocked
    } else {
        IssueStatus::Done
    }
}

impl IssueStatus {
    /// Cycle forward: todo -> active -> blocked -> done -> todo
    pub fn cycle(self) -> (r: IssueStatus)
        ensures
            r == issue_status_at((issue_status_index(self) + 1) % 4),
    {
        match self {
            IssueStatus::Todo => IssueStatus::Active,
            IssueStatus::Active => IssueStatus::Blocked,
            IssueStatus::Blocked => IssueStatus::Done,
            IssueStatus::Done => IssueStatus::Todo,
        }
    }

    /// Cycle backward: todo -> done -> blocked -> active -> todo
    pub fn cycle_reverse(self) -> (r: IssueStatus)
        ensures
            r == issue_status_at((issue_status_index(self) + 3) % 4),
    {
        match self {
            IssueStatus::Todo => IssueStatus::Done,
            IssueStatus::Active => IssueStatus::Todo,
            IssueStatus::Blocked => IssueStatus::Active,
            IssueStatus::Done => IssueStatus::Blocked,
        }
    }

    /// All variants in display order (for kanban columns).
    pub fn all_variants() -> (r: &'static [IssueStatus])
        ensures
            r@.len() == 4,
            forall|i: int| 0 <= i < 4 ==> r@[i] == issue_status_at(i),
    {
        let r: &'static [IssueStatus] = &[
            IssueStatus::Todo,
            IssueStatus::Active,
            IssueStatus::Blocked,
            IssueStatus::Done,
        ];
        r
    }

    pub fn to_string(&self) -> (r: String)
        ensures
            r@ == issue_status_name(*self),
    {
        match self {
            IssueStatus::Todo => string_of("todo"),
            IssueStatus::Active => string_of("active"),
            IssueStatus::Blocked => string_of("blocked"),
            IssueStatus::Done => string_of("done"),
        }
    }

    pub fn parse(s: &str) -> (r: Result<IssueStatus, String>)
        ensures
            match (r, parse_issue_status(s@)) {
                (Ok(a), Ok(b)) => a == b,
                (Err(m), Err(n)) => m@ == n,
                _ => false,
            },
    {
        let cs = str_chars(s);
        let t = trimmed(&cs);
        let ts = string_from_chars(&t);
        let l = to_lowercase(ts.as_str());
        let lc = str_chars(l.as_str());
        proof {
            reveal_strlit("todo");
            reveal_strlit("active");
            reveal_strlit("blocked");
            reveal_strlit("done");
            assert(is_ascii_seq("todo"@));
            assert(is_ascii_seq("active"@));
            assert(is_ascii_seq("blocked"@));
            assert(is_ascii_seq("done"@));
        }
        if chars_eq_lit(&lc, "todo") {
            Ok(IssueStatus::Todo)
        } else if chars_eq_lit(&lc, "active") {
            Ok(IssueStatus::Active)
        } else if chars_eq_lit(&lc, "blocked") {
            Ok(IssueStatus::Blocked)
        } else if chars_eq_lit(&lc, "done") {
            Ok(IssueStatus::Done)
        } else {
            let mut m: Vec<char> = Vec::new();
            push_str(&mut m, "unknown issue status: '");
            push_chars(&mut m, &lc);
            push_str(&mut m, "'");
            Err(string_from_chars(&m))
        }
    }
}

impl std::str::FromStr for IssueStatus {
    type Err = String;

    fn from_str(s: &str) -> (r: Result<IssueStatus, String>)
        ensures
            match (r, parse_issue_status(s@)) {
                (Ok(a), Ok(b)) => a == b,
                (Err(m), Err(n)) => m@ == n,
                _ => false,
            },
    {
        IssueStatus::parse(s)
    }
}

// ── Laws ─────────────────────────────────────────────────────────────

/// Cycling forward and then backward (or backward and then forward) gives back the
/// issue status one started with.
pub proof fn lemma_issue_cycle_inverse(s: IssueStatus)
    ensures
        issue_status_at((issue_status_index(issue_status_at((issue_status_index(s) + 1) % 4))
            + 3) % 4) == s,
        issue_status_at((issue_status_index(issue_status_at((issue_status_index(s) + 3) % 4))
            + 1) % 4) == s,
{
}

/// Four forward cycles give back the status one started with.
pub proof fn lemma_issue_cycle_period(s: IssueStatus)
    ensures
        issue_status_at(
            (issue_status_index(
                issue_status_at(
                    (issue_status_index(
                        issue_status_at(
                            (issue_status_index(issue_status_at((issue_status_index(s) + 1) % 4))
                                + 1) % 4,
                        ),
                    ) + 1) % 4,
                ),
            ) + 1) % 4,
        ) == s,
{
}

proof fn lemma_lowercase_eq_self(t: Seq<char>)
    requires
        forall|i: int| 0 <= i < t.len() ==> !('A' <= #[trigger] t[i] && t[i] <= 'Z'),
    ensures
        lowercase_eq(t, t),
{
}

/// Parsing the name of a status gives back that status.
pub proof fn lemma_status_parse_name(s: Status)
    ensures
        parse_status(status_name(s)) == Ok::<Status, ()>(s),
{
    reveal_strlit("active");
    reveal_strlit("blocked");
    reveal_strlit("pending");
    reveal_strlit("parked");
    reveal_strlit("done");
    lemma_lowercase_eq_self(status_name(s));
    assert(!lowers_to("parked"@[0], "active"@[0]));
    assert(!lowers_to("pending"@[1], "blocked"@[1]));
}

/// Parsing the name of a priority gives back that priority.
pub proof fn lemma_priority_parse_name(p: Priority)
    ensures
        parse_priority(priority_name(p)) == Ok::<Priority, ()>(p),
{
    reveal_strlit("high");
    reveal_strlit("medium");
    reveal_strlit("low");
    lemma_lowercase_eq_self(priority_name(p));
}

/// Parsing the name of an issue status gives back that status.
pub proof fn lemma_issue_status_parse_name(s: IssueStatus)
    ensures
        parse_issue_status(issue_status_name(s)) == Ok::<IssueStatus, Seq<char>>(s),
{
    reveal_strlit("todo");
    reveal_strlit("active");
    reveal_strlit("blocked");
    reveal_strlit("done");
    lemma_lowercase_eq_self(issue_status_name(s));
    assert(!lowers_to("done"@[0], "todo"@[0]));
    assert(trim(issue_status_name(s)) == issue_status_name(s));
}

} // verus!
