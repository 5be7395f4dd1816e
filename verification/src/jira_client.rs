//! The JIRA client's side of an API call: retrying a rate-limited request, the error that a
//! failed reply carries, the request each command sends and the result it ends in. The
//! transport (sending, sleeping, reading the reply) is the caller's; this module decides.
use vstd::prelude::*;
use base64::Engine;
use crate::jira::JiraError;
use crate::json::{Json, JsonV, jv, get, get_of, member, member_of, members_v, copy_json, push_member, object1, lemma_jv_object};
use crate::text::{dec, parse_u64, parse_u64_text, str_chars, string_from_chars, push_str, push_chars, push_string, push_dec};
use crate::jira_api::{
    opt_view, idx, JiraIssue, JiraTransition, JiraComment, EditableField, transitions_of,
    transition_of, comments_of, comment_of, comment_bodies_fit, object_members, editable_fields,
    issue_of, parse_issue, parse_transitions, parse_comments, parse_edit_meta,
};
use crate::adf::adf_fits;

verus! {

broadcast use vstd::string::group_string_axioms;

/// How often a read is retried after a rate limit.
pub const MAX_READ_RETRIES: u32 = 3;

/// How often a write is retried after a rate limit.
pub const MAX_WRITE_RETRIES: u32 = 1;

/// Issues asked for per page of a search.
pub const PAGE_SIZE: u64 = 100;

// ── Errors ───────────────────────────────────────────────────────────

/// An error as its parts: status, messages, field errors.
pub open spec fn error_view(e: JiraError) -> (u16, Seq<Seq<char>>, Seq<(Seq<char>, Seq<char>)>) {
    (e.status_code, e.error_messages.deep_view(), e.field_errors.deep_view())
}

/// An error with one message and no field errors.
pub open spec fn message_error(status: u16, msg: Seq<char>) -> (u16, Seq<Seq<char>>, Seq<(Seq<char>, Seq<char>)>) {
    (status, seq![msg], Seq::empty())
}

fn one_message(status: u16, prefix: &str, detail: &str) -> (r: JiraError)
    ensures
        error_view(r) == message_error(status, prefix@ + detail@),
        r.wf(),
{
    let mut t: Vec<char> = Vec::new();
    push_str(&mut t, prefix);
    push_str(&mut t, detail);
    let msgs = vec![string_from_chars(&t)];
    let r = JiraError { status_code: status, error_messages: msgs, field_errors: Vec::new() };
    assert(r.error_messages.deep_view() =~= seq![prefix@ + detail@]);
    assert(r.field_errors.deep_view() =~= Seq::<(Seq<char>, Seq<char>)>::empty());
    r
}

/// The request could not be sent, or its reply not read.
pub fn network_error(detail: &str) -> (r: JiraError)
    ensures
        error_view(r) == message_error(0, "Network error: "@ + detail@),
        r.wf(),
{
    one_message(0, "Network error: ", detail)
}

/// A rate limit outlasted the retries.
pub fn rate_limited() -> (r: JiraError)
    ensures
        error_view(r) == message_error(429, "Rate limited — max retries exceeded"@),
        r.wf(),
{
    let r = one_message(429, "Rate limited — max retries exceeded", "");
    assert("Rate limited — max retries exceeded"@ + ""@ =~= "Rate limited — max retries exceeded"@) by {
        reveal_strlit("");
    }
    r
}

/// The texts of an array of strings; none where an item is not a string.
pub open spec fn str_items(items: Seq<Json>) -> Option<Seq<Seq<char>>>
    decreases items.len(),
{
    if items.len() == 0 {
        Some(Seq::empty())
    } else {
        match (items.last(), str_items(items.drop_last())) {
            (Json::Str(s), Some(p)) => Some(p.push(s@)),
            _ => None,
        }
    }
}

pub open spec fn has_name(p: Seq<(Seq<char>, Seq<char>)>, k: Seq<char>) -> bool {
    exists|i: int| 0 <= i < p.len() && (#[trigger] p[i]).0 == k
}

/// The pairs of an object whose members are all strings, as a map reads them: a name met
/// again takes the later value and moves to the end; none where a value is not a string.
pub open spec fn str_members(fs: Seq<(String, Json)>) -> Option<Seq<(Seq<char>, Seq<char>)>>
    decreases fs.len(),
{
    if fs.len() == 0 {
        Some(Seq::empty())
    } else {
        let k = fs.last().0@;
        match (fs.last().1, str_members(fs.drop_last())) {
            (Json::Str(v), Some(p)) => Some(
                if has_name(p, k) {
                    p.remove(choose|i: int| 0 <= i < p.len() && (#[trigger] p[i]).0 == k).push((k, v@))
                } else {
                    p.push((k, v@))
                },
            ),
            _ => None,
        }
    }
}

/// `errorMessages` and `errors`, each absent or of the right shape.
pub open spec fn error_parts(m: Option<Json>, e: Option<Json>) -> Option<(Seq<Seq<char>>, Seq<(Seq<char>, Seq<char>)>)> {
    let msgs = match m {
        None => Some(Seq::empty()),
        Some(Json::Array(items)) => str_items(items@),
        Some(_) => None,
    };
    let fields = match e {
        None => Some(Seq::empty()),
        Some(Json::Object(fs)) => str_members(fs@),
        Some(_) => None,
    };
    match (msgs, fields) {
        (Some(a), Some(b)) => Some((a, b)),
        _ => None,
    }
}

/// A member name that occurs more than once.
pub open spec fn named_twice(fs: Seq<(String, Json)>, k: Seq<char>) -> bool {
    exists|i: int, j: int| 0 <= i < j < fs.len() && (#[trigger] fs[i]).0@ == k && (#[trigger] fs[j]).0@ == k
}

/// What an error reply's body says, read as `{"errorMessages": [..], "errors": {..}}` with
/// both members optional (an array is read by position, as serde reads a struct); a body
/// that is missing or reads otherwise says nothing.
pub open spec fn error_body(body: Option<Json>) -> (Seq<Seq<char>>, Seq<(Seq<char>, Seq<char>)>) {
    let got = match body {
        Some(Json::Object(fs)) => if named_twice(fs@, "errorMessages"@) || named_twice(fs@, "errors"@) {
            None
        } else {
            error_parts(member(fs@, "errorMessages"@), member(fs@, "errors"@))
        },
        Some(Json::Array(items)) => if items@.len() <= 2 {
            error_parts(
                if items@.len() > 0 {
                    Some(items@[0])
                } else {
                    None
                },
                if items@.len() > 1 {
                    Some(items@[1])
                } else {
                    None
                },
            )
        } else {
            None
        },
        _ => None,
    };
    match got {
        Some(x) => x,
        None => (Seq::empty(), Seq::empty()),
    }
}

fn str_items_of(items: &Vec<Json>) -> (r: Option<Vec<String>>)
    ensures
        match r {
            Some(v) => str_items(items@) == Some(v.deep_view()),
            None => str_items(items@) is None,
        },
{
    let mut out: Vec<String> = Vec::new();
    let mut i: usize = 0;
    while i < items.len()
        invariant
            i <= items.len(),
            str_items(items@.subrange(0, i as int)) == Some(out.deep_view()),
        decreases items.len() - i,
    {
        let ghost pre = items@.subrange(0, i as int);
        let ghost nxt = items@.subrange(0, i + 1);
        assert(nxt.drop_last() =~= pre);
        match &items[i] {
            Json::Str(s) => {
                let ghost before = out.deep_view();
                out.push(s.clone());
                assert(out.deep_view() =~= before.push(s@));
            },
            _ => {
                proof {
                    lemma_str_items_prefix(items@, i + 1);
                }
                return None;
            },
        }
        i = i + 1;
    }
    assert(items@.subrange(0, items@.len() as int) =~= items@);
    Some(out)
}

proof fn lemma_str_items_prefix(items: Seq<Json>, k: int)
    requires
        0 <= k <= items.len(),
        str_items(items.subrange(0, k)) is None,
    ensures
        str_items(items) is None,
    decreases items.len() - k,
{
    if k < items.len() {
        assert(items.subrange(0, k + 1).drop_last() =~= items.subrange(0, k));
        lemma_str_items_prefix(items, k + 1);
    } else {
        assert(items.subrange(0, k) =~= items);
    }
}

proof fn lemma_str_members_prefix(fs: Seq<(String, Json)>, k: int)
    requires
        0 <= k <= fs.len(),
        str_members(fs.subrange(0, k)) is None,
    ensures
        str_members(fs) is None,
    decreases fs.len() - k,
{
    if k < fs.len() {
        assert(fs.subrange(0, k + 1).drop_last() =~= fs.subrange(0, k));
        lemma_str_members_prefix(fs, k + 1);
    } else {
        assert(fs.subrange(0, k) =~= fs);
    }
}

pub open spec fn distinct_names(p: Seq<(Seq<char>, Seq<char>)>) -> bool {
    forall|i: int, j: int| 0 <= i < j < p.len() ==> (#[trigger] p[i]).0 != (#[trigger] p[j]).0
}

fn text_is(a: &String, b: &String) -> (r: bool)
    ensures
        r == (a@ == b@),
{
    crate::yaml::eq_chars(&str_chars(a.as_str()), &str_chars(b.as_str()))
}

fn str_members_of(fs: &Vec<(String, Json)>) -> (r: Option<Vec<(String, String)>>)
    ensures
        match r {
            Some(v) => str_members(fs@) == Some(v.deep_view()) && distinct_names(v.deep_view()),
            None => str_members(fs@) is None,
        },
{
    let mut out: Vec<(String, String)> = Vec::new();
    let mut i: usize = 0;
    while i < fs.len()
        invariant
            i <= fs.len(),
            str_members(fs@.subrange(0, i as int)) == Some(out.deep_view()),
            distinct_names(out.deep_view()),
        decreases fs.len() - i,
    {
        let ghost pre = fs@.subrange(0, i as int);
        let ghost nxt = fs@.subrange(0, i + 1);
        assert(nxt.drop_last() =~= pre);
        assert(nxt.last() == fs@[i as int]);
        match &fs[i].1 {
            Json::Str(v) => {
                let ghost p = out.deep_view();
                let ghost k = fs@[i as int].0@;
                let mut j: usize = 0;
                let mut found: Option<usize> = None;
                while j < out.len()
                    invariant
                        j <= out.len(),
                        p == out.deep_view(),
                        k == fs@[i as int].0@,
                        i < fs.len(),
                        found matches Some(x) ==> x < out.len() && p[x as int].0 == k,
                        found is None ==> forall|t: int| 0 <= t < j ==> (#[trigger] p[t]).0 != k,
                    decreases out.len() - j,
                {
                    if found.is_none() && text_is(&out[j].0, &fs[i].0) {
                        found = Some(j);
                    }
                    j = j + 1;
                }
                match found {
                    Some(x) => {
                        assert(has_name(p, k));
                        let ghost c = choose|t: int| 0 <= t < p.len() && (#[trigger] p[t]).0 == k;
                        assert(c == x) by {
                            if c != x {
                                if c < x {
                                    assert(p[c].0 != p[x as int].0);
                                } else {
                                    assert(p[x as int].0 != p[c].0);
                                }
                            }
                        }
                        out.remove(x);
                        let ghost mid = out.deep_view();
                        assert(mid =~= p.remove(x as int));
                        out.push((fs[i].0.clone(), v.clone()));
                        assert(out.deep_view() =~= mid.push((k, v@)));
                    },
                    None => {
                        assert(!has_name(p, k));
                        out.push((fs[i].0.clone(), v.clone()));
                        assert(out.deep_view() =~= p.push((k, v@)));
                    },
                }
                assert(distinct_names(out.deep_view())) by {
                    let q = out.deep_view();
                    assert forall|a: int, b: int| 0 <= a < b < q.len() implies (#[trigger] q[a]).0 != (#[trigger] q[b]).0 by {
                        if b == q.len() - 1 {
                            if found is None {
                                assert(q[a] == p[a]);
                            } else {
                                let x = found->0 as int;
                                if a < x {
                                    assert(q[a] == p[a]);
                                } else {
                                    assert(q[a] == p[a + 1]);
                                    assert(p[x].0 != p[a + 1].0);
                                }
                            }
                        } else if found is None {
                            assert(q[a] == p[a] && q[b] == p[b]);
                        } else {
                            let x = found->0 as int;
                            let a0 = if a < x { a } else { a + 1 };
                            let b0 = if b < x { b } else { b + 1 };
                            assert(q[a] == p[a0] && q[b] == p[b0]);
                        }
                    }
                }
            },
            _ => {
                proof {
                    lemma_str_members_prefix(fs@, i + 1);
                }
                return None;
            },
        }
        i = i + 1;
    }
    assert(fs@.subrange(0, fs@.len() as int) =~= fs@);
    Some(out)
}

fn error_parts_of(m: Option<&Json>, e: Option<&Json>) -> (r: Option<(Vec<String>, Vec<(String, String)>)>)
    ensures
        match r {
            Some((a, b)) => error_parts(
                match m {
                    Some(x) => Some(*x),
                    None => None,
                },
                match e {
                    Some(x) => Some(*x),
                    None => None,
                },
            ) == Some((a.deep_view(), b.deep_view())) && distinct_names(b.deep_view()),
            None => error_parts(
                match m {
                    Some(x) => Some(*x),
                    None => None,
                },
                match e {
                    Some(x) => Some(*x),
                    None => None,
                },
            ) is None,
        },
{
    let msgs = match m {
        None => Some(Vec::new()),
        Some(Json::Array(items)) => str_items_of(items),
        Some(_) => None,
    };
    let fields = match e {
        None => Some(Vec::new()),
        Some(Json::Object(fs)) => str_members_of(fs),
        Some(_) => None,
    };
    match (msgs, fields) {
        (Some(a), Some(b)) => {
            assert(m is None ==> a.deep_view() =~= Seq::<Seq<char>>::empty());
            assert(e is None ==> b.deep_view() =~= Seq::<(Seq<char>, Seq<char>)>::empty());
            Some((a, b))
        },
        _ => None,
    }
}

fn count_named(fs: &Vec<(String, Json)>, key: &str) -> (r: usize)
    ensures
        (r > 1) == named_twice(fs@, key@),
{
    let mut n: usize = 0;
    let mut first: usize = 0;
    let mut i: usize = 0;
    while i < fs.len()
        invariant
            i <= fs.len(),
            n <= i,
            n == 0 ==> forall|t: int| 0 <= t < i ==> (#[trigger] fs@[t]).0@ != key@,
            n >= 1 ==> first < i && fs@[first as int].0@ == key@,
            n == 1 ==> forall|t: int| 0 <= t < i && t != first ==> (#[trigger] fs@[t]).0@ != key@,
            n > 1 ==> named_twice(fs@, key@),
        decreases fs.len() - i,
    {
        if crate::yaml::eq_chars(&str_chars(fs[i].0.as_str()), &str_chars(key)) {
            if n == 0 {
                first = i;
            } else {
                assert(fs@[first as int].0@ == key@ && fs@[i as int].0@ == key@);
            }
            n = n + 1;
        }
        i = i + 1;
    }
    proof {
        if named_twice(fs@, key@) {
            let (a, b) = choose|a: int, b: int|
                0 <= a < b < fs@.len() && (#[trigger] fs@[a]).0@ == key@ && (#[trigger] fs@[b]).0@ == key@;
            assert(fs@[a].0@ == key@ && fs@[b].0@ == key@);
        }
    }
    n
}

/// The error that a reply with status `status` and body `body` (where it read as JSON)
/// carries.
pub fn error_from_body(status: u16, body: Option<&Json>) -> (r: JiraError)
    ensures
        error_view(r) == (
            status,
            error_body(
                match body {
                    Some(b) => Some(*b),
                    None => None,
                },
            ).0,
            error_body(
                match body {
                    Some(b) => Some(*b),
                    None => None,
                },
            ).1,
        ),
        r.wf(),
{
    proof {
        reveal_strlit("errorMessages");
        reveal_strlit("errors");
    }
    let got = match body {
        Some(Json::Object(fs)) => {
            if count_named(fs, "errorMessages") > 1 || count_named(fs, "errors") > 1 {
                None
            } else {
                error_parts_of(member_of(fs, "errorMessages"), member_of(fs, "errors"))
            }
        },
        Some(Json::Array(items)) => {
            if items.len() <= 2 {
                let a = if items.len() > 0 {
                    Some(&items[0])
                } else {
                    None
                };
                let b = if items.len() > 1 {
                    Some(&items[1])
                } else {
                    None
                };
                error_parts_of(a, b)
            } else {
                None
            }
        },
        _ => None,
    };
    match got {
        Some((a, b)) => {
            let r = JiraError { status_code: status, error_messages: a, field_errors: b };
            assert(r.wf()) by {
                assert forall|i: int, j: int|
                    0 <= i < j < r.field_errors@.len() implies #[trigger] r.field_errors@[i].0@
                    != #[trigger] r.field_errors@[j].0@ by {
                    assert(r.field_errors.deep_view()[i].0 == r.field_errors@[i].0@);
                    assert(r.field_errors.deep_view()[j].0 == r.field_errors@[j].0@);
                }
            }
            r
        },
        None => {
            let r = JiraError { status_code: status, error_messages: Vec::new(), field_errors: Vec::new() };
            assert(r.error_messages.deep_view() =~= Seq::<Seq<char>>::empty());
            assert(r.field_errors.deep_view() =~= Seq::<(Seq<char>, Seq<char>)>::empty());
            r
        },
    }
}

// ── Retrying ─────────────────────────────────────────────────────────

/// The HTTP method of a request.
#[derive(Debug, Clone, Copy, PartialEq, Eq, Structural)]
pub enum Method {
    Get,
    Post,
    Put,
}

/// What came back for a request.
pub enum HttpReply {
    /// The request could not be sent, or its reply not read: the transport's message.
    Unreachable(String),
    /// A status, the `Retry-After` header where there was one, and the body read as JSON
    /// (or why it could not be).
    Received { status: u16, retry_after: Option<String>, body: Result<Json, String> },
}

/// What to do after a reply.
pub enum RetryStep {
    /// Sleep this many seconds, then send the same request again.
    Wait(u64),
    /// The request is over: the body of a successful reply (where one is read), or the error.
    Done(Result<Option<Json>, JiraError>),
}

/// The seconds to wait before retrying: the `Retry-After` header where it is a number,
/// else 60, and at most 120.
pub open spec fn retry_delay_of(header: Option<Seq<char>>) -> u64 {
    let secs: u64 = match header {
        Some(t) => match parse_u64(t) {
            Some(n) => n,
            None => 60,
        },
        None => 60,
    };
    if secs < 120 {
        secs
    } else {
        120
    }
}

pub fn retry_delay(header: Option<&str>) -> (r: u64)
    ensures
        r == retry_delay_of(
            match header {
                Some(t) => Some(t@),
                None => None,
            },
        ),
{
    let secs = match header {
        Some(t) => match parse_u64_text(t) {
            Some(n) => n,
            None => 60,
        },
        None => 60,
    };
    if secs < 120 {
        secs
    } else {
        120
    }
}

/// One request in flight: its method and how many times a rate limit has been waited out.
pub struct Retrying {
    pub method: Method,
    pub retries: u32,
    pub max_retries: u32,
}

impl Retrying {
    /// A request may be sent at most `max_retries` times more than once.
    pub open spec fn wf(&self) -> bool {
        self.retries <= self.max_retries
    }

    pub fn new(method: Method, max_retries: u32) -> (r: Retrying)
        ensures
            r.method == method,
            r.retries == 0,
            r.max_retries == max_retries,
            r.wf(),
    {
        Retrying { method, retries: 0, max_retries }
    }

    /// Decides what a reply means: a 2xx status ends the request with its body (a read
    /// keeps the JSON or fails on it, a post keeps it where it was JSON, a put keeps
    /// nothing); a rate limit (429) waits and retries while retries are left; any other
    /// status ends it with the error its body carries.
    pub fn on_reply(&mut self, reply: HttpReply) -> (r: RetryStep)
        requires
            old(self).wf(),
        ensures
            final(self).wf(),
            final(self).method == old(self).method,
            final(self).max_retries == old(self).max_retries,
            r is Wait ==> final(self).retries == old(self).retries + 1,
            r is Done ==> final(self).retries == old(self).retries,
            match reply {
                HttpReply::Unreachable(e) => r matches RetryStep::Done(Err(x)) && error_view(x)
                    == message_error(0, "Network error: "@ + e@),
                HttpReply::Received { status, retry_after, body } => if 200 <= status < 300 {
                    match old(self).method {
                        Method::Get => match body {
                            Ok(j) => r == RetryStep::Done(Ok(Some(j))),
                            Err(e) => r matches RetryStep::Done(Err(x)) && error_view(x)
                                == message_error(0, "JSON parse error: "@ + e@),
                        },
                        Method::Post => r == RetryStep::Done(Ok(body.ok())),
                        Method::Put => r == RetryStep::Done(Ok(None)),
                    }
                } else if status == 429 {
                    if old(self).retries >= old(self).max_retries {
                        r matches RetryStep::Done(Err(x)) && error_view(x) == message_error(
                            429,
                            "Rate limited — max retries exceeded"@,
                        )
                    } else {
                        r == RetryStep::Wait(
                            retry_delay_of(
                                match retry_after {
                                    Some(t) => Some(t@),
                                    None => None,
                                },
                            ),
                        )
                    }
                } else {
                    r matches RetryStep::Done(Err(x)) && error_view(x) == (
                        status,
                        error_body(body.ok()).0,
                        error_body(body.ok()).1,
                    )
                },
            },
    {
        match reply {
            HttpReply::Unreachable(e) => RetryStep::Done(Err(network_error(e.as_str()))),
            HttpReply::Received { status, retry_after, body } => {
                if 200 <= status && status < 300 {
                    match self.method {
                        Method::Get => match body {
                            Ok(j) => RetryStep::Done(Ok(Some(j))),
                            Err(e) => RetryStep::Done(Err(one_message(0, "JSON parse error: ", e.as_str()))),
                        },
                        Method::Post => match body {
                            Ok(j) => RetryStep::Done(Ok(Some(j))),
                            Err(_) => RetryStep::Done(Ok(None)),
                        },
                        Method::Put => RetryStep::Done(Ok(None)),
                    }
                } else if status == 429 {
                    if self.retries >= self.max_retries {
                        RetryStep::Done(Err(rate_limited()))
                    } else {
                        let secs = match &retry_after {
                            Some(t) => retry_delay(Some(t.as_str())),
                            None => retry_delay(None),
                        };
                        self.retries = self.retries + 1;
                        RetryStep::Wait(secs)
                    }
                } else {
                    let e = match &body {
                        Ok(j) => error_from_body(status, Some(j)),
                        Err(_) => error_from_body(status, None),
                    };
                    RetryStep::Done(Err(e))
                }
            },
        }
    }
}

// ── Requests ─────────────────────────────────────────────────────────

/// What every call is made with: the instance URL (no trailing slash), the account whose
/// issues are fetched, and the custom fields that hold story points and sprints.
pub struct ApiSettings {
    pub base_url: String,
    pub account_id: String,
    pub story_points_field: Option<String>,
    pub sprint_field: Option<String>,
}

/// `url.trim_end_matches('/')`.
pub open spec fn trim_slashes(s: Seq<char>) -> Seq<char>
    decreases s.len(),
{
    if s.len() > 0 && s.last() == '/' {
        trim_slashes(s.drop_last())
    } else {
        s
    }
}

fn trim_slashes_of(s: &str) -> (r: String)
    ensures
        r@ == trim_slashes(s@),
{
    let v = str_chars(s);
    let mut n = v.len();
    assert(v@.subrange(0, n as int) =~= v@);
    while n > 0 && v[n - 1] == '/'
        invariant
            n <= v.len(),
            trim_slashes(v@) == trim_slashes(v@.subrange(0, n as int)),
        decreases n,
    {
        assert(v@.subrange(0, n as int).drop_last() =~= v@.subrange(0, n - 1));
        n = n - 1;
    }
    string_from_chars(&crate::text::slice(&v, 0, n))
}

impl ApiSettings {
    pub fn new(
        base_url: &str,
        account_id: &str,
        story_points_field: Option<&str>,
        sprint_field: Option<&str>,
    ) -> (r: ApiSettings)
        ensures
            r.base_url@ == trim_slashes(base_url@),
            r.account_id@ == account_id@,
            opt_view(r.story_points_field) == match story_points_field {
                Some(f) => Some(f@),
                None => None,
            },
            opt_view(r.sprint_field) == match sprint_field {
                Some(f) => Some(f@),
                None => None,
            },
    {
        ApiSettings {
            base_url: trim_slashes_of(base_url),
            account_id: string_from_chars(&str_chars(account_id)),
            story_points_field: match story_points_field {
                Some(f) => Some(string_from_chars(&str_chars(f))),
                None => None,
            },
            sprint_field: match sprint_field {
                Some(f) => Some(string_from_chars(&str_chars(f))),
                None => None,
            },
        }
    }
}

/// The URL that checks credentials: `GET /rest/api/3/myself`.
pub fn myself_url(base_url: &str) -> (r: String)
    ensures
        r@ == trim_slashes(base_url@) + "/rest/api/3/myself"@,
{
    let mut t = str_chars(trim_slashes_of(base_url).as_str());
    push_str(&mut t, "/rest/api/3/myself");
    string_from_chars(&t)
}

/// The UTF-8 bytes of a character.
pub open spec fn utf8_char(c: char) -> Seq<u8> {
    let n = c as u32 as int;
    if n < 0x80 {
        seq![n as u8]
    } else if n < 0x800 {
        seq![(0xC0 + n / 64) as u8, (0x80 + n % 64) as u8]
    } else if n < 0x10000 {
        seq![(0xE0 + n / 4096) as u8, (0x80 + (n / 64) % 64) as u8, (0x80 + n % 64) as u8]
    } else {
        seq![
            (0xF0 + n / 262144) as u8,
            (0x80 + (n / 4096) % 64) as u8,
            (0x80 + (n / 64) % 64) as u8,
            (0x80 + n % 64) as u8,
        ]
    }
}

/// The UTF-8 bytes of a text.
pub open spec fn utf8(s: Seq<char>) -> Seq<u8>
    decreases s.len(),
{
    if s.len() == 0 {
        Seq::empty()
    } else {
        utf8(s.drop_last()) + utf8_char(s.last())
    }
}

/// The character of a six-bit value in the standard base64 alphabet.
pub open spec fn b64_char(v: int) -> char {
    "ABCDEFGHIJKLMNOPQRSTUVWXYZabcdefghijklmnopqrstuvwxyz0123456789+/"@[v]
}

/// The standard base64 encoding of `b`, with `=` padding: each group of three bytes gives
/// four characters, a last group of one or two bytes gives two or three and the padding.
pub open spec fn base64(b: Seq<u8>) -> Seq<char>
    decreases b.len(),
{
    if b.len() == 0 {
        Seq::empty()
    } else if b.len() == 1 {
        let v = b[0] as int;
        seq![b64_char(v / 4), b64_char((v % 4) * 16), '=', '=']
    } else if b.len() == 2 {
        let v = b[0] as int * 256 + b[1] as int;
        seq![b64_char(v / 1024), b64_char((v / 16) % 64), b64_char((v % 16) * 4), '=']
    } else {
        let v = b[0] as int * 65536 + b[1] as int * 256 + b[2] as int;
        seq![b64_char(v / 262144), b64_char((v / 4096) % 64), b64_char((v / 64) % 64), b64_char(
            v % 64,
        )] + base64(b.skip(3))
    }
}

/// Calls `base64::engine::general_purpose::STANDARD.encode` on the UTF-8 bytes of `s`: the
/// standard alphabet with padding, as `base64` states it. The crate works out the encoded
/// length first and panics where it overflows `usize`, which a text of this length cannot
/// reach.
#[verifier::external_body]
fn base64_encode(s: &str) -> (r: String)
    requires
        s@.len() <= usize::MAX / 8,
    ensures
        r@ == base64(utf8(s@)),
{
    base64::engine::general_purpose::STANDARD.encode(s)
}

/// The `Authorization` header for basic authentication: `Basic ` and the base64 of
/// `email:api_token`.
pub fn authorization(email: &str, api_token: &str) -> (r: String)
    requires
        email@.len() + api_token@.len() < usize::MAX / 8,
    ensures
        r@ == "Basic "@ + base64(utf8(email@ + ":"@ + api_token@)),
{
    let mut t: Vec<char> = Vec::new();
    push_str(&mut t, email);
    push_str(&mut t, ":");
    push_str(&mut t, api_token);
    proof {
        reveal_strlit(":");
    }
    let joined = string_from_chars(&t);
    let enc = base64_encode(joined.as_str());
    let mut h: Vec<char> = Vec::new();
    push_str(&mut h, "Basic ");
    push_string(&mut h, &enc);
    string_from_chars(&h)
}

/// A request to send: its method, URL and, for a write, its JSON body.
pub struct HttpRequest {
    pub method: Method,
    pub url: String,
    pub body: Option<Json>,
}

pub open spec fn request_view(q: HttpRequest) -> (Method, Seq<char>, Option<JsonV>) {
    (
        q.method,
        q.url@,
        match q.body {
            Some(b) => Some(jv(b)),
            None => None,
        },
    )
}

/// A call the client is asked to make.
pub enum JiraCommand {
    /// All issues assigned to the account; the generation keeps a stale answer out.
    FetchMyIssues { generation: u64 },
    FetchTransitions { issue_key: String },
    /// Move an issue to another status, with the fields the transition asks for.
    TransitionIssue { issue_key: String, transition_id: String, fields: Option<Json> },
    UpdateField { issue_key: String, field_id: String, value: Json },
    /// Add a comment; its body is an ADF document.
    AddComment { issue_key: String, body: Json },
    FetchComments { issue_key: String },
    /// The fields to fill to create an issue of a type in a project.
    FetchCreateMeta { project_key: String, issue_type_id: String },
    CreateIssue { project_key: String, fields: Json },
    FetchEditMeta { issue_key: String },
    FetchFields,
    FetchIssueTypes { project_key: String },
    Shutdown,
}

/// The fields a search asks for: the standard ones, then the story-point and sprint
/// fields where they are configured.
pub open spec fn search_fields_of(sp: Option<Seq<char>>, sf: Option<Seq<char>>) -> Seq<char> {
    "summary,status,priority,issuetype,assignee,reporter,created,updated,description,labels,components,project,parent"@
        + match sp {
        Some(f) => ","@ + f,
        None => Seq::empty(),
    } + match sf {
        Some(f) => ","@ + f,
        None => Seq::empty(),
    }
}

/// The body of a transition: its id, then, from `fields`, its `update` member and its
/// `fields` member (or, where it has neither, `fields` itself as the fields).
pub open spec fn transition_body(tid: Seq<char>, fields: Option<Json>) -> JsonV {
    let t = ("transition"@, JsonV::Object(seq![("id"@, JsonV::Str(tid))]));
    match fields {
        None => JsonV::Object(seq![t]),
        Some(fv) => {
            let u = get(fv, "update"@);
            let base = match u {
                Some(x) => seq![t, ("update"@, jv(x))],
                None => seq![t],
            };
            JsonV::Object(
                match get(fv, "fields"@) {
                    Some(x) => base.push(("fields"@, jv(x))),
                    None => if u is None {
                        base.push(("fields"@, jv(fv)))
                    } else {
                        base
                    },
                },
            )
        },
    }
}

/// A member that creating an issue sets itself.
pub open spec fn set_on_create(name: Seq<char>) -> bool {
    name == "project"@ || name == "assignee"@ || name == "reporter"@
}

/// The members that creating an issue leaves as they are.
pub open spec fn kept_on_create(ms: Seq<(Seq<char>, JsonV)>) -> Seq<(Seq<char>, JsonV)>
    decreases ms.len(),
{
    if ms.len() == 0 {
        Seq::empty()
    } else if set_on_create(ms.last().0) {
        kept_on_create(ms.drop_last())
    } else {
        kept_on_create(ms.drop_last()).push(ms.last())
    }
}

/// The fields of a new issue: an object keeps its other members and gets the project, and
/// the account as assignee and reporter; anything else is sent as it is.
pub open spec fn create_fields(project: Seq<char>, account: Seq<char>, fields: Json) -> JsonV {
    match fields {
        Json::Object(fs) => JsonV::Object(
            kept_on_create(members_v(fs@)) + seq![
                ("project"@, JsonV::Object(seq![("key"@, JsonV::Str(project))])),
                ("assignee"@, JsonV::Object(seq![("accountId"@, JsonV::Str(account))])),
                ("reporter"@, JsonV::Object(seq![("accountId"@, JsonV::Str(account))])),
            ],
        ),
        _ => jv(fields),
    }
}

pub open spec fn issue_url(base: Seq<char>, key: Seq<char>) -> Seq<char> {
    base + "/rest/api/3/issue/"@ + key
}

/// The request a command sends, for the page that starts at `start_at`; none for shutting
/// down.
pub open spec fn request_of(s: ApiSettings, cmd: JiraCommand, start_at: u64) -> Option<(Method, Seq<char>, Option<JsonV>)> {
    let base = s.base_url@;
    match cmd {
        JiraCommand::FetchMyIssues { .. } => Some((
            Method::Get,
            base + "/rest/api/3/search?jql=assignee%3D'"@ + s.account_id@
                + "'%20ORDER%20BY%20updated%20DESC&startAt="@ + dec(start_at as nat) + "&maxResults="@
                + dec(PAGE_SIZE as nat) + "&fields="@ + search_fields_of(
                opt_view(s.story_points_field),
                opt_view(s.sprint_field),
            ),
            None,
        )),
        JiraCommand::FetchTransitions { issue_key } => Some((
            Method::Get,
            issue_url(base, issue_key@) + "/transitions?expand=transitions.fields"@,
            None,
        )),
        JiraCommand::TransitionIssue { issue_key, transition_id, fields } => Some((
            Method::Post,
            issue_url(base, issue_key@) + "/transitions"@,
            Some(transition_body(transition_id@, fields)),
        )),
        JiraCommand::UpdateField { issue_key, field_id, value } => Some((
            Method::Put,
            issue_url(base, issue_key@) + "?notifyUsers=false"@,
            Some(JsonV::Object(seq![("fields"@, JsonV::Object(seq![(field_id@, jv(value))]))])),
        )),
        JiraCommand::AddComment { issue_key, body } => Some((
            Method::Post,
            issue_url(base, issue_key@) + "/comment"@,
            Some(JsonV::Object(seq![("body"@, jv(body))])),
        )),
        JiraCommand::FetchComments { issue_key } => Some((
            Method::Get,
            issue_url(base, issue_key@) + "/comment?startAt=0&maxResults=50&orderBy=-created"@,
            None,
        )),
        JiraCommand::FetchCreateMeta { project_key, issue_type_id } => Some((
            Method::Get,
            base + "/rest/api/3/issue/createmeta/"@ + project_key@ + "/issuetypes/"@ + issue_type_id@
                + "?startAt="@ + dec(start_at as nat) + "&maxResults=50"@,
            None,
        )),
        JiraCommand::CreateIssue { project_key, fields } => Some((
            Method::Post,
            base + "/rest/api/3/issue"@,
            Some(JsonV::Object(seq![("fields"@, create_fields(project_key@, s.account_id@, fields))])),
        )),
        JiraCommand::FetchEditMeta { issue_key } => Some((
            Method::Get,
            issue_url(base, issue_key@) + "/editmeta"@,
            None,
        )),
        JiraCommand::FetchFields => Some((Method::Get, base + "/rest/api/3/field"@, None)),
        JiraCommand::FetchIssueTypes { project_key } => Some((
            Method::Get,
            base + "/rest/api/3/issue/createmeta/"@ + project_key@ + "/issuetypes"@,
            None,
        )),
        JiraCommand::Shutdown => None,
    }
}

fn search_fields_text(s: &ApiSettings) -> (r: Vec<char>)
    ensures
        r@ == search_fields_of(opt_view(s.story_points_field), opt_view(s.sprint_field)),
{
    let mut t: Vec<char> = Vec::new();
    push_str(
        &mut t,
        "summary,status,priority,issuetype,assignee,reporter,created,updated,description,labels,components,project,parent",
    );
    proof {
        reveal_strlit(",");
    }
    match &s.story_points_field {
        Some(f) => {
            push_str(&mut t, ",");
            push_string(&mut t, f);
        },
        None => {},
    }
    match &s.sprint_field {
        Some(f) => {
            push_str(&mut t, ",");
            push_string(&mut t, f);
        },
        None => {},
    }
    t
}

fn transition_body_of(tid: &String, fields: &Option<Json>) -> (r: Json)
    ensures
        jv(r) == transition_body(tid@, *fields),
{
    let id = object1("id", Json::Str(tid.clone()));
    let mut fs: Vec<(String, Json)> = Vec::new();
    assert(members_v(fs@) =~= Seq::<(Seq<char>, JsonV)>::empty());
    push_member(&mut fs, "transition", id);
    match fields {
        None => {},
        Some(fv) => {
            let u = get_of(fv, "update");
            match u {
                Some(x) => push_member(&mut fs, "update", copy_json(x)),
                None => {},
            }
            match get_of(fv, "fields") {
                Some(x) => push_member(&mut fs, "fields", copy_json(x)),
                None => {
                    if u.is_none() {
                        push_member(&mut fs, "fields", copy_json(fv));
                    }
                },
            }
        },
    }
    proof {
        reveal_strlit("update");
        reveal_strlit("fields");
        lemma_jv_object(fs);
        if let JsonV::Object(m) = transition_body(tid@, *fields) {
            assert(members_v(fs@) =~= m);
        }
    }
    Json::Object(fs)
}

fn is_set_on_create(name: &String) -> (r: bool)
    ensures
        r == set_on_create(name@),
{
    let v = str_chars(name.as_str());
    crate::yaml::eq_chars(&v, &str_chars("project")) || crate::yaml::eq_chars(&v, &str_chars("assignee"))
        || crate::yaml::eq_chars(&v, &str_chars("reporter"))
}

fn create_fields_of(project: &String, account: &String, fields: &Json) -> (r: Json)
    ensures
        jv(r) == create_fields(project@, account@, *fields),
{
    match fields {
        Json::Object(fs) => {
            let mut out: Vec<(String, Json)> = Vec::new();
            let mut i: usize = 0;
            while i < fs.len()
                invariant
                    i <= fs.len(),
                    members_v(out@) == kept_on_create(members_v(fs@.subrange(0, i as int))),
                decreases fs.len() - i,
            {
                let ghost pre = members_v(fs@.subrange(0, i as int));
                let ghost nxt = members_v(fs@.subrange(0, i + 1));
                assert(nxt.drop_last() =~= pre);
                assert(nxt.last() == (fs@[i as int].0@, jv(fs@[i as int].1)));
                if !is_set_on_create(&fs[i].0) {
                    let ghost before = members_v(out@);
                    out.push((fs[i].0.clone(), copy_json(&fs[i].1)));
                    assert(members_v(out@) =~= before.push(nxt.last()));
                }
                i = i + 1;
            }
            assert(fs@.subrange(0, fs@.len() as int) =~= fs@);
            let ghost kept = members_v(out@);
            push_member(&mut out, "project", object1("key", Json::Str(project.clone())));
            push_member(&mut out, "assignee", object1("accountId", Json::Str(account.clone())));
            push_member(&mut out, "reporter", object1("accountId", Json::Str(account.clone())));
            proof {
                lemma_jv_object(out);
                if let JsonV::Object(m) = create_fields(project@, account@, *fields) {
                    assert(members_v(out@) =~= m);
                }
            }
            Json::Object(out)
        },
        _ => copy_json(fields),
    }
}

fn issue_url_text(base: &String, key: &String) -> (r: Vec<char>)
    ensures
        r@ == issue_url(base@, key@),
{
    let mut t = str_chars(base.as_str());
    push_str(&mut t, "/rest/api/3/issue/");
    push_string(&mut t, key);
    t
}

fn get_request(url: Vec<char>) -> (r: HttpRequest)
    ensures
        request_view(r) == (Method::Get, url@, None::<JsonV>),
{
    HttpRequest { method: Method::Get, url: string_from_chars(&url), body: None }
}

fn write_request(method: Method, url: Vec<char>, body: Json) -> (r: HttpRequest)
    ensures
        request_view(r) == (method, url@, Some(jv(body))),
{
    HttpRequest { method, url: string_from_chars(&url), body: Some(body) }
}

impl JiraCommand {
    /// The request this command sends for the page that starts at `start_at`.
    pub fn request(&self, s: &ApiSettings, start_at: u64) -> (r: Option<HttpRequest>)
        ensures
            match r {
                Some(q) => request_of(*s, *self, start_at) == Some(request_view(q)),
                None => request_of(*s, *self, start_at) is None,
            },
    {
        match self {
            JiraCommand::FetchMyIssues { .. } => {
                let mut t = str_chars(s.base_url.as_str());
                push_str(&mut t, "/rest/api/3/search?jql=assignee%3D'");
                push_string(&mut t, &s.account_id);
                push_str(&mut t, "'%20ORDER%20BY%20updated%20DESC&startAt=");
                push_dec(&mut t, start_at);
                push_str(&mut t, "&maxResults=");
                push_dec(&mut t, PAGE_SIZE);
                push_str(&mut t, "&fields=");
                push_chars(&mut t, &search_fields_text(s));
                Some(get_request(t))
            },
            JiraCommand::FetchTransitions { issue_key } => {
                let mut t = issue_url_text(&s.base_url, issue_key);
                push_str(&mut t, "/transitions?expand=transitions.fields");
                Some(get_request(t))
            },
            JiraCommand::TransitionIssue { issue_key, transition_id, fields } => {
                let mut t = issue_url_text(&s.base_url, issue_key);
                push_str(&mut t, "/transitions");
                Some(write_request(Method::Post, t, transition_body_of(transition_id, fields)))
            },
            JiraCommand::UpdateField { issue_key, field_id, value } => {
                let mut t = issue_url_text(&s.base_url, issue_key);
                push_str(&mut t, "?notifyUsers=false");
                let mut inner: Vec<(String, Json)> = Vec::new();
                inner.push((field_id.clone(), copy_json(value)));
                proof {
                    lemma_jv_object(inner);
                    assert(members_v(inner@) =~= seq![(field_id@, jv(*value))]);
                }
                let body = object1("fields", Json::Object(inner));
                Some(write_request(Method::Put, t, body))
            },
            JiraCommand::AddComment { issue_key, body } => {
                let mut t = issue_url_text(&s.base_url, issue_key);
                push_str(&mut t, "/comment");
                Some(write_request(Method::Post, t, object1("body", copy_json(body))))
            },
            JiraCommand::FetchComments { issue_key } => {
                let mut t = issue_url_text(&s.base_url, issue_key);
                push_str(&mut t, "/comment?startAt=0&maxResults=50&orderBy=-created");
                Some(get_request(t))
            },
            JiraCommand::FetchCreateMeta { project_key, issue_type_id } => {
                let mut t = str_chars(s.base_url.as_str());
                push_str(&mut t, "/rest/api/3/issue/createmeta/");
                push_string(&mut t, project_key);
                push_str(&mut t, "/issuetypes/");
                push_string(&mut t, issue_type_id);
                push_str(&mut t, "?startAt=");
                push_dec(&mut t, start_at);
                push_str(&mut t, "&maxResults=50");
                Some(get_request(t))
            },
            JiraCommand::CreateIssue { project_key, fields } => {
                let mut t = str_chars(s.base_url.as_str());
                push_str(&mut t, "/rest/api/3/issue");
                let body = object1("fields", create_fields_of(project_key, &s.account_id, fields));
                Some(write_request(Method::Post, t, body))
            },
            JiraCommand::FetchEditMeta { issue_key } => {
                let mut t = issue_url_text(&s.base_url, issue_key);
                push_str(&mut t, "/editmeta");
                Some(get_request(t))
            },
            JiraCommand::FetchFields => {
                let mut t = str_chars(s.base_url.as_str());
                push_str(&mut t, "/rest/api/3/field");
                Some(get_request(t))
            },
            JiraCommand::FetchIssueTypes { project_key } => {
                let mut t = str_chars(s.base_url.as_str());
                push_str(&mut t, "/rest/api/3/issue/createmeta/");
                push_string(&mut t, project_key);
                push_str(&mut t, "/issuetypes");
                Some(get_request(t))
            },
            JiraCommand::Shutdown => None,
        }
    }
}

// ── Results ──────────────────────────────────────────────────────────

/// A field definition (`/rest/api/3/field`).
#[derive(Debug, Clone)]
pub struct JiraFieldDef {
    pub id: String,
    pub name: String,
    pub custom: bool,
    pub schema: Option<FieldSchema>,
}

/// The schema of a field definition.
#[derive(Debug, Clone)]
pub struct FieldSchema {
    pub field_type: String,
    pub custom: Option<String>,
}

/// An issue type of a project.
#[derive(Debug, Clone)]
pub struct JiraIssueType {
    pub id: String,
    pub name: String,
    pub subtask: bool,
}

/// The fields to fill to create an issue, without those set automatically.
#[derive(Debug, Clone)]
pub struct CreateMetaResponse {
    pub fields: Vec<EditableField>,
}

/// What a call ends in.
pub enum JiraResult {
    Issues { generation: u64, issues: Vec<JiraIssue> },
    Transitions(String, Vec<JiraTransition>),
    TransitionComplete(String),
    /// A transition failed, so that the board can undo its optimistic move.
    TransitionFailed(String, JiraError),
    FieldUpdated(String, String),
    CommentAdded(String),
    Comments(String, Vec<JiraComment>),
    CreateMeta(CreateMetaResponse),
    IssueCreated(String),
    EditMeta(String, Vec<EditableField>),
    Fields(Vec<JiraFieldDef>),
    IssueTypes(String, Vec<JiraIssueType>),
    Error { context: String, error: JiraError },
}

/// What a failed call was doing, as its error says; a transition's failure names its issue
/// instead, and shutting down makes no call.
pub open spec fn context_of(cmd: JiraCommand) -> Seq<char>
    recommends
        !(cmd is TransitionIssue || cmd is Shutdown),
{
    match cmd {
        JiraCommand::FetchMyIssues { .. } => "Fetching issues"@,
        JiraCommand::FetchTransitions { issue_key } => "Fetching transitions for "@ + issue_key@,
        JiraCommand::UpdateField { issue_key, field_id, .. } => "Updating "@ + field_id@ + " on "@ + issue_key@,
        JiraCommand::AddComment { issue_key, .. } => "Adding comment to "@ + issue_key@,
        JiraCommand::FetchComments { issue_key } => "Fetching comments for "@ + issue_key@,
        JiraCommand::FetchCreateMeta { project_key, issue_type_id } => "Fetching createmeta for "@
            + project_key@ + "/"@ + issue_type_id@,
        JiraCommand::CreateIssue { project_key, .. } => "Creating issue in "@ + project_key@,
        JiraCommand::FetchEditMeta { issue_key } => "Fetching editmeta for "@ + issue_key@,
        JiraCommand::FetchFields => "Fetching field definitions"@,
        JiraCommand::FetchIssueTypes { project_key } => "Fetching issue types for "@ + project_key@,
        _ => Seq::empty(),
    }
}

/// The key of a created issue, or `???` where the reply names none.
pub open spec fn created_key(body: Option<Json>) -> Seq<char> {
    match body {
        Some(j) => match get(j, "key"@) {
            Some(Json::Str(k)) => k@,
            _ => "???"@,
        },
        None => "???"@,
    }
}

pub open spec fn body_or_null(body: Option<Json>) -> Json {
    match body {
        Some(j) => j,
        None => Json::Null,
    }
}

fn text2(a: &str, b: &String) -> (r: String)
    ensures
        r@ == a@ + b@,
{
    let mut t: Vec<char> = Vec::new();
    push_str(&mut t, a);
    push_string(&mut t, b);
    string_from_chars(&t)
}

/// The next page of a listing: none when the page was empty or short, else the one after.
pub open spec fn next_start_of(start_at: u64, page_len: u64, page_size: u64) -> Option<u64> {
    if page_len == 0 || page_len < page_size {
        None
    } else {
        Some((start_at + page_len) as u64)
    }
}

pub fn next_start(start_at: u64, page_len: u64, page_size: u64) -> (r: Option<u64>)
    requires
        start_at + page_len <= u64::MAX,
    ensures
        r == next_start_of(start_at, page_len, page_size),
{
    if page_len == 0 || page_len < page_size {
        None
    } else {
        Some(start_at + page_len)
    }
}

/// The issues of one page of a search (`issues` of the search response).
pub fn issues_page(values: &Vec<Json>, s: &ApiSettings) -> (r: Vec<JiraIssue>)
    requires
        forall|i: int| 0 <= i < values@.len() ==> adf_fits(idx(idx(#[trigger] values@[i], "fields"@), "description"@)),
    ensures
        r@.len() == values@.len(),
        forall|i: int| 0 <= i < values@.len() ==> (#[trigger] r@[i])@ == issue_of(
            values@[i],
            opt_view(s.story_points_field),
            opt_view(s.sprint_field),
        ),
{
    let mut out: Vec<JiraIssue> = Vec::new();
    let mut i: usize = 0;
    while i < values.len()
        invariant
            i <= values.len(),
            out@.len() == i,
            forall|i: int| 0 <= i < values@.len() ==> adf_fits(idx(idx(#[trigger] values@[i], "fields"@), "description"@)),
            forall|k: int| 0 <= k < i ==> (#[trigger] out@[k])@ == issue_of(
                values@[k],
                opt_view(s.story_points_field),
                opt_view(s.sprint_field),
            ),
        decreases values.len() - i,
    {
        let sp = match &s.story_points_field {
            Some(f) => Some(f.as_str()),
            None => None,
        };
        let sf = match &s.sprint_field {
            Some(f) => Some(f.as_str()),
            None => None,
        };
        out.push(parse_issue(&values[i], sp, sf));
        i = i + 1;
    }
    out
}

impl JiraCommand {
    /// What this call was doing, for its error.
    pub fn context(&self) -> (r: String)
        requires
            !(*self is TransitionIssue || *self is Shutdown),
        ensures
            r@ == context_of(*self),
    {
        let mut t: Vec<char> = Vec::new();
        match self {
            JiraCommand::FetchMyIssues { .. } => push_str(&mut t, "Fetching issues"),
            JiraCommand::FetchTransitions { issue_key } => {
                push_str(&mut t, "Fetching transitions for ");
                push_string(&mut t, issue_key);
            },
            JiraCommand::UpdateField { issue_key, field_id, .. } => {
                push_str(&mut t, "Updating ");
                push_string(&mut t, field_id);
                push_str(&mut t, " on ");
                push_string(&mut t, issue_key);
            },
            JiraCommand::AddComment { issue_key, .. } => {
                push_str(&mut t, "Adding comment to ");
                push_string(&mut t, issue_key);
            },
            JiraCommand::FetchComments { issue_key } => {
                push_str(&mut t, "Fetching comments for ");
                push_string(&mut t, issue_key);
            },
            JiraCommand::FetchCreateMeta { project_key, issue_type_id } => {
                push_str(&mut t, "Fetching createmeta for ");
                push_string(&mut t, project_key);
                push_str(&mut t, "/");
                push_string(&mut t, issue_type_id);
            },
            JiraCommand::CreateIssue { project_key, .. } => {
                push_str(&mut t, "Creating issue in ");
                push_string(&mut t, project_key);
            },
            JiraCommand::FetchEditMeta { issue_key } => {
                push_str(&mut t, "Fetching editmeta for ");
                push_string(&mut t, issue_key);
            },
            JiraCommand::FetchFields => push_str(&mut t, "Fetching field definitions"),
            JiraCommand::FetchIssueTypes { project_key } => {
                push_str(&mut t, "Fetching issue types for ");
                push_string(&mut t, project_key);
            },
            _ => {},
        }
        string_from_chars(&t)
    }

    /// The result of a call that failed: a failed transition names its issue (so that the
    /// board can undo its move); every other call reports its context.
    pub fn failed(&self, error: JiraError) -> (r: JiraResult)
        requires
            !(*self is Shutdown),
        ensures
            match *self {
                JiraCommand::TransitionIssue { issue_key, .. } => r matches JiraResult::TransitionFailed(k, e)
                    && k@ == issue_key@ && e == error,
                _ => r matches JiraResult::Error { context, error: e } && context@ == context_of(*self) && e
                    == error,
            },
    {
        match self {
            JiraCommand::TransitionIssue { issue_key, .. } => JiraResult::TransitionFailed(issue_key.clone(), error),
            _ => JiraResult::Error { context: self.context(), error },
        }
    }

    /// A listing's page that did not read: `Parse error:` and why, under what was being
    /// read. Only the paged listings have such pages.
    pub fn page_unreadable(&self, detail: &str) -> (r: Option<JiraResult>)
        ensures
            match *self {
                JiraCommand::FetchMyIssues { .. } => r matches Some(JiraResult::Error { context, error })
                    && context@ == "Parsing search response"@ && error_view(error) == message_error(
                    0,
                    "Parse error: "@ + detail@,
                ),
                JiraCommand::FetchCreateMeta { .. } => r matches Some(JiraResult::Error { context, error })
                    && context@ == "Parsing createmeta response"@ && error_view(error) == message_error(
                    0,
                    "Parse error: "@ + detail@,
                ),
                _ => r is None,
            },
    {
        match self {
            JiraCommand::FetchMyIssues { .. } => Some(
                JiraResult::Error {
                    context: string_from_chars(&str_chars("Parsing search response")),
                    error: one_message(0, "Parse error: ", detail),
                },
            ),
            JiraCommand::FetchCreateMeta { .. } => Some(
                JiraResult::Error {
                    context: string_from_chars(&str_chars("Parsing createmeta response")),
                    error: one_message(0, "Parse error: ", detail),
                },
            ),
            _ => None,
        }
    }

    /// The result of a call that succeeded with `body` (the reply's JSON where there was
    /// one), for the calls whose result is read from that JSON alone; the paged listings
    /// and the typed lists (field definitions, issue types) have none here.
    pub fn succeeded(&self, body: Option<Json>) -> (r: Option<JiraResult>)
        requires
            *self is FetchComments ==> comment_bodies_fit(body_or_null(body)),
        ensures
            match *self {
                JiraCommand::FetchTransitions { issue_key } => r matches Some(JiraResult::Transitions(k, ts))
                    && k@ == issue_key@ && ts@.len() == transitions_of(body_or_null(body)).len() && forall|i: int|
                    0 <= i < ts@.len() ==> (#[trigger] ts@[i])@ == transition_of(
                        transitions_of(body_or_null(body))[i],
                    ),
                JiraCommand::TransitionIssue { issue_key, .. } => r matches Some(JiraResult::TransitionComplete(k))
                    && k@ == issue_key@,
                JiraCommand::UpdateField { issue_key, field_id, .. } => r matches Some(
                    JiraResult::FieldUpdated(k, f),
                ) && k@ == issue_key@ && f@ == field_id@,
                JiraCommand::AddComment { issue_key, .. } => r matches Some(JiraResult::CommentAdded(k))
                    && k@ == issue_key@,
                JiraCommand::FetchComments { issue_key } => r matches Some(JiraResult::Comments(k, cs))
                    && k@ == issue_key@ && cs@.len() == comments_of(body_or_null(body)).len() && forall|i: int|
                    0 <= i < cs@.len() ==> (#[trigger] cs@[i])@ == comment_of(
                        comments_of(body_or_null(body))[i],
                    ),
                JiraCommand::CreateIssue { .. } => r matches Some(JiraResult::IssueCreated(k)) && k@
                    == created_key(body),
                JiraCommand::FetchEditMeta { issue_key } => r matches Some(JiraResult::EditMeta(k, fs))
                    && k@ == issue_key@ && fs@.map_values(|f: EditableField| f@) == editable_fields(
                    object_members(get(body_or_null(body), "fields"@)),
                ),
                _ => r is None,
            },
    {
        let b = match body {
            Some(j) => j,
            None => Json::Null,
        };
        match self {
            JiraCommand::FetchTransitions { issue_key } => Some(
                JiraResult::Transitions(issue_key.clone(), parse_transitions(&b)),
            ),
            JiraCommand::TransitionIssue { issue_key, .. } => Some(JiraResult::TransitionComplete(issue_key.clone())),
            JiraCommand::UpdateField { issue_key, field_id, .. } => Some(
                JiraResult::FieldUpdated(issue_key.clone(), field_id.clone()),
            ),
            JiraCommand::AddComment { issue_key, .. } => Some(JiraResult::CommentAdded(issue_key.clone())),
            JiraCommand::FetchComments { issue_key } => Some(
                JiraResult::Comments(issue_key.clone(), parse_comments(&b)),
            ),
            JiraCommand::CreateIssue { .. } => {
                proof {
                    reveal_strlit("key");
                }
                let k = match get_of(&b, "key") {
                    Some(Json::Str(k)) => k.clone(),
                    _ => string_from_chars(&str_chars("???")),
                };
                Some(JiraResult::IssueCreated(k))
            },
            JiraCommand::FetchEditMeta { issue_key } => Some(
                JiraResult::EditMeta(issue_key.clone(), parse_edit_meta(&b)),
            ),
            _ => None,
        }
    }
}

} // verus!
