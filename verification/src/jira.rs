//! Data of the JIRA integration that the library reasons about: status categories,
//! field kinds and API errors.
use vstd::prelude::*;
use crate::text::{dec, join, lemma_chars_deep_view, push_dec, push_joined, push_str, push_string, str_chars, string_from_chars, trim, trimmed};

verus! {

broadcast use vstd::string::group_string_axioms;

/// JIRA has 4 status category keys: "new", "indeterminate", "done", "undefined".
/// We map these to 3 display categories. "undefined" and unknown values map to `ToDo`.
#[derive(Debug, Clone, Copy, PartialEq, Eq, Hash, Structural)]
pub enum StatusCategory {
    ToDo,
    InProgress,
    Done,
}

pub open spec fn status_category_of(key: Seq<char>) -> StatusCategory {
    if key == "indeterminate"@ {
        StatusCategory::InProgress
    } else if key == "done"@ {
        StatusCategory::Done
    } else {
        StatusCategory::ToDo
    }
}

impl StatusCategory {
    /// The display category of a status category key.
    pub fn from_key(key: &str) -> (r: StatusCategory)
        ensures
            r == status_category_of(key@),
    {
        let k = str_chars(key);
        let ind = str_chars("indeterminate");
        let done = str_chars("done");
        if eq_chars(&k, &ind) {
            StatusCategory::InProgress
        } else if eq_chars(&k, &done) {
            StatusCategory::Done
        } else {
            StatusCategory::ToDo
        }
    }
}

fn eq_chars(a: &Vec<char>, b: &Vec<char>) -> (r: bool)
    ensures
        r == (a@ == b@),
{
    if a.len() != b.len() {
        return false;
    }
    let mut i: usize = 0;
    while i < a.len()
        invariant
            i <= a.len(),
            a.len() == b.len(),
            forall|k: int| 0 <= k < i ==> a@[k] == b@[k],
        decreases a.len() - i,
    {
        if a[i] != b[i] {
            return false;
        }
        i = i + 1;
    }
    assert(a@ =~= b@);
    true
}

/// Field type classification for rendering and editing.
#[derive(Debug, Clone, Copy, PartialEq, Eq, Structural)]
pub enum FieldType {
    Text,
    TextArea,
    Number,
    Select,
    MultiSelect,
    Date,
    /// For field types that cannot be rendered or edited. Shown as read-only text.
    Unsupported,
}

/// Error returned from the JIRA REST API.
/// Covers both top-level error messages and per-field errors; each field appears once.
#[derive(Debug, Clone)]
pub struct JiraError {
    pub status_code: u16,
    pub error_messages: Vec<String>,
    pub field_errors: Vec<(String, String)>,
}

/// `field: message`.
pub open spec fn field_error_line(f: (Seq<char>, Seq<char>)) -> Seq<char> {
    f.0 + ": "@ + f.1
}

/// The text shown for an API error: its messages, then one line per field error, one per
/// line; where there are none, the HTTP status.
pub open spec fn error_text(
    code: u16,
    msgs: Seq<Seq<char>>,
    fields: Seq<(Seq<char>, Seq<char>)>,
) -> Seq<char> {
    let parts = msgs + fields.map_values(|f: (Seq<char>, Seq<char>)| field_error_line(f));
    if parts.len() == 0 {
        "HTTP "@ + dec(code as nat)
    } else {
        join(parts, "\n"@)
    }
}

impl JiraError {
    /// No field is named twice.
    pub open spec fn wf(&self) -> bool {
        forall|i: int, j: int|
            0 <= i < j < self.field_errors@.len() ==> #[trigger] self.field_errors@[i].0@
                != #[trigger] self.field_errors@[j].0@
    }

    pub fn display(&self) -> (r: String)
        ensures
            r@ == error_text(
                self.status_code,
                self.error_messages.deep_view(),
                self.field_errors.deep_view(),
            ),
    {
        let mut parts: Vec<Vec<char>> = Vec::new();
        let mut i: usize = 0;
        while i < self.error_messages.len()
            invariant
                i <= self.error_messages.len(),
                parts.deep_view() == self.error_messages.deep_view().subrange(0, i as int),
            decreases self.error_messages.len() - i,
        {
            let ghost before = parts.deep_view();
            let v = str_chars(self.error_messages[i].as_str());
            proof {
                lemma_chars_deep_view(&v);
            }
            parts.push(v);
            assert(parts.deep_view() =~= before.push(self.error_messages[i as int]@));
            i = i + 1;
            assert(parts.deep_view() =~= self.error_messages.deep_view().subrange(0, i as int));
        }
        let ghost msgs = self.error_messages.deep_view();
        assert(msgs.subrange(0, msgs.len() as int) =~= msgs);
        let ghost fields = self.field_errors.deep_view();
        let mut j: usize = 0;
        while j < self.field_errors.len()
            invariant
                j <= self.field_errors.len(),
                fields == self.field_errors.deep_view(),
                parts.deep_view() == msgs + fields.subrange(0, j as int).map_values(
                    |f: (Seq<char>, Seq<char>)| field_error_line(f),
                ),
            decreases self.field_errors.len() - j,
        {
            let ghost before = parts.deep_view();
            let mut line: Vec<char> = Vec::new();
            push_string(&mut line, &self.field_errors[j].0);
            push_str(&mut line, ": ");
            push_string(&mut line, &self.field_errors[j].1);
            proof {
                lemma_chars_deep_view(&line);
            }
            parts.push(line);
            assert(parts.deep_view() =~= before.push(field_error_line(fields[j as int])));
            j = j + 1;
            assert(fields.subrange(0, j as int).map_values(
                |f: (Seq<char>, Seq<char>)| field_error_line(f),
            ) =~= fields.subrange(0, j - 1).map_values(
                |f: (Seq<char>, Seq<char>)| field_error_line(f),
            ).push(field_error_line(fields[j - 1])));
            assert(parts.deep_view() =~= msgs + fields.subrange(0, j as int).map_values(
                |f: (Seq<char>, Seq<char>)| field_error_line(f),
            ));
        }
        assert(fields.subrange(0, fields.len() as int) =~= fields);
        let mut out: Vec<char> = Vec::new();
        if parts.len() == 0 {
            push_str(&mut out, "HTTP ");
            push_dec(&mut out, self.status_code as u64);
        } else {
            let sep = str_chars("\n");
            push_joined(&mut out, &parts, &sep);
        }
        string_from_chars(&out)
    }
}


// ── Configuration ────────────────────────────────────────────────────

/// Configuration for the JIRA Cloud integration plugin.
#[derive(Debug, Clone)]
pub struct JiraConfig {
    /// JIRA Cloud instance URL (e.g., "https://myorg.atlassian.net").
    pub url: String,
    /// Email address associated with the JIRA API token.
    pub email: String,
    /// Auto-refresh interval in seconds (default: 60).
    pub refresh_interval_secs: u64,
    /// Custom field ID for story points (e.g., "customfield_10016").
    pub story_points_field: Option<String>,
    /// Custom field ID for sprint (e.g., "customfield_10020").
    pub sprint_field: Option<String>,
}

/// The refresh interval where the settings give none.
pub fn default_refresh() -> (r: u64)
    ensures
        r == 60,
{
    60
}

pub open spec fn missing_token_msg() -> Seq<char> {
    "JIRA_API_TOKEN environment variable is not set. Generate one at https://id.atlassian.com/manage-profile/security/api-tokens"@
}

/// The outcome of checking the settings, given what `JIRA_API_TOKEN` holds (if it is set).
pub open spec fn validation(url: Seq<char>, email: Seq<char>, token: Option<Seq<char>>) -> Result<(), Seq<char>> {
    if trim(url).len() == 0 {
        Err("JIRA url is empty in config (plugins.jira.url)"@)
    } else if trim(email).len() == 0 {
        Err("JIRA email is empty in config (plugins.jira.email)"@)
    } else if token is None || token->0.len() == 0 {
        Err(missing_token_msg())
    } else {
        Ok(())
    }
}

impl JiraConfig {
    /// Validate that the configuration has all required values; `api_token` is what the
    /// `JIRA_API_TOKEN` environment variable holds, if it is set.
    ///
    /// Returns `Ok(())` if valid, or `Err(message)` describing what is missing.
    pub fn validate(&self, api_token: Option<&str>) -> (r: Result<(), String>)
        ensures
            match (r, validation(self.url@, self.email@, match api_token {
                Some(t) => Some(t@),
                None => None,
            })) {
                (Ok(_), Ok(_)) => true,
                (Err(a), Err(b)) => a@ == b,
                _ => false,
            },
    {
        if trimmed(&str_chars(self.url.as_str())).len() == 0 {
            return Err(string_from_chars(&str_chars("JIRA url is empty in config (plugins.jira.url)")));
        }
        if trimmed(&str_chars(self.email.as_str())).len() == 0 {
            return Err(string_from_chars(&str_chars("JIRA email is empty in config (plugins.jira.email)")));
        }
        let empty = match api_token {
            Some(t) => str_chars(t).len() == 0,
            None => true,
        };
        if empty {
            return Err(string_from_chars(&str_chars("JIRA_API_TOKEN environment variable is not set. Generate one at https://id.atlassian.com/manage-profile/security/api-tokens")));
        }
        Ok(())
    }
}

// ── Setting up ───────────────────────────────────────────────────────

/// What a setup question settles on: the trimmed answer, or the value already set where the
/// answer is blank.
pub open spec fn settled(answer: Seq<char>, existing: Seq<char>) -> Seq<char> {
    if trim(answer).len() == 0 {
        existing
    } else {
        trim(answer)
    }
}

/// The value a setup question settles on (see `settled`).
pub fn setup_answer(answer: &str, existing: &str) -> (r: String)
    ensures
        r@ == settled(answer@, existing@),
{
    let t = trimmed(&str_chars(answer));
    if t.len() == 0 {
        string_from_chars(&str_chars(existing))
    } else {
        string_from_chars(&t)
    }
}

/// Adds `name` to the list of enabled plugins, unless it is there already.
pub fn enable_plugin(enabled: &mut Vec<String>, name: &str)
    ensures
        final(enabled).deep_view() == (if old(enabled).deep_view().contains(name@) {
            old(enabled).deep_view()
        } else {
            old(enabled).deep_view().push(name@)
        }),
{
    let n = str_chars(name);
    let mut i: usize = 0;
    while i < enabled.len()
        invariant
            i <= enabled.len(),
            n@ == name@,
            forall|k: int| 0 <= k < i ==> enabled.deep_view()[k] != name@,
        decreases enabled.len() - i,
    {
        let e = str_chars(enabled[i].as_str());
        let mut same = e.len() == n.len();
        let mut j: usize = 0;
        while same && j < e.len()
            invariant
                j <= e.len(),
                same ==> e.len() == n.len(),
                same ==> forall|k: int| 0 <= k < j ==> e@[k] == n@[k],
                !same ==> e@ != n@,
            decreases e.len() - j,
        {
            if e[j] != n[j] {
                same = false;
            }
            j = j + 1;
        }
        if same {
            assert(e@ =~= n@);
            assert(enabled.deep_view()[i as int] == name@);
            return;
        }
        assert(enabled.deep_view()[i as int] == e@);
        i = i + 1;
    }
    let ghost before = enabled.deep_view();
    assert(!before.contains(name@));
    enabled.push(string_from_chars(&n));
    assert(enabled.deep_view() =~= before.push(name@));
}

} // verus!
