//! Reading JIRA REST API responses: transitions, comments, edit metadata and sprints.
use vstd::prelude::*;
use crate::adf::{adf_fits, adf_text, adf_to_text};
use crate::jira::{status_category_of, FieldType, StatusCategory};
use crate::json::{get, get_of, member, Json};
use crate::text::{str_chars, string_from_chars};

verus! {

broadcast use vstd::string::group_string_axioms;

// ── Data ─────────────────────────────────────────────────────────────

#[derive(Debug, Clone)]
pub struct JiraStatus {
    pub name: String,
    pub category: StatusCategory,
}

#[derive(Debug, Clone)]
pub struct AllowedValue {
    pub id: String,
    pub name: String,
}

/// A required field attached to a transition (e.g., Resolution for "Done").
#[derive(Debug, Clone)]
pub struct TransitionField {
    pub field_id: String,
    pub name: String,
    pub field_type: FieldType,
    pub allowed_values: Vec<AllowedValue>,
    /// True when the transition requires a comment instead of (or in addition to) structured fields.
    pub is_comment: bool,
}

#[derive(Debug, Clone)]
pub struct JiraTransition {
    pub id: String,
    pub name: String,
    pub to_status: JiraStatus,
    pub required_fields: Vec<TransitionField>,
}

#[derive(Debug, Clone)]
pub struct JiraComment {
    pub id: String,
    pub author: String,
    pub created: String,
    pub body: String,
}

#[derive(Debug, Clone)]
pub struct EditableField {
    pub field_id: String,
    pub name: String,
    pub field_type: FieldType,
    pub required: bool,
    pub allowed_values: Option<Vec<AllowedValue>>,
}

// ── Reading values ───────────────────────────────────────────────────

/// `value[key]`: the member, or null where there is none.
pub open spec fn idx(j: Json, key: Seq<char>) -> Json {
    match get(j, key) {
        Some(x) => x,
        None => Json::Null,
    }
}

/// `value.as_str().unwrap_or(d)`.
pub open spec fn str_or(j: Json, d: Seq<char>) -> Seq<char> {
    match j {
        Json::Str(s) => s@,
        _ => d,
    }
}

pub open spec fn opt_str(j: Option<Json>) -> Option<Seq<char>> {
    match j {
        Some(Json::Str(s)) => Some(s@),
        _ => None,
    }
}

pub open spec fn array_items(j: Json) -> Seq<Json> {
    match j {
        Json::Array(v) => v@,
        _ => Seq::empty(),
    }
}

fn idx_of<'a>(j: &'a Json, key: &str) -> (r: Option<&'a Json>)
    ensures
        match r {
            Some(x) => idx(*j, key@) == *x,
            None => idx(*j, key@) == Json::Null,
        },
{
    get_of(j, key)
}

fn str_or_of(j: Option<&Json>, d: &str) -> (r: String)
    ensures
        r@ == str_or(
            match j {
                Some(x) => *x,
                None => Json::Null,
            },
            d@,
        ),
{
    match j {
        Some(Json::Str(s)) => string_from_chars(&str_chars(s.as_str())),
        _ => string_from_chars(&str_chars(d)),
    }
}

fn text_is(s: &String, lit: &str) -> (r: bool)
    ensures
        r == (s@ == lit@),
{
    crate::yaml::eq_chars(&str_chars(s.as_str()), &str_chars(lit))
}

// ── Field types ──────────────────────────────────────────────────────

pub open spec fn schema_str(field_val: Json, key: Seq<char>) -> Seq<char> {
    match get(field_val, "schema"@) {
        Some(s) => match get(s, key) {
            Some(Json::Str(x)) => x@,
            _ => Seq::empty(),
        },
        None => Seq::empty(),
    }
}

/// A field's kind by its schema: `string`, `number`, dates, choices from allowed values,
/// arrays, and so on; what cannot be edited is `Unsupported`.
pub open spec fn field_type_of(field_val: Json, has_allowed: bool) -> FieldType {
    let t = schema_str(field_val, "type"@);
    let items = schema_str(field_val, "items"@);
    let system = schema_str(field_val, "system"@);
    if t == "string"@ {
        if system == "description"@ {
            FieldType::TextArea
        } else {
            FieldType::Text
        }
    } else if t == "number"@ {
        FieldType::Number
    } else if t == "date"@ || t == "datetime"@ {
        FieldType::Date
    } else if t == "priority"@ || t == "resolution"@ || t == "option"@ {
        if !has_allowed {
            FieldType::Text
        } else {
            FieldType::Select
        }
    } else if t == "array"@ {
        if items == "string"@ {
            FieldType::Text
        } else if has_allowed {
            FieldType::MultiSelect
        } else {
            FieldType::Unsupported
        }
    } else if t == "any"@ {
        if system == "description"@ {
            FieldType::TextArea
        } else {
            FieldType::Unsupported
        }
    } else if t == "user"@ || t == "version"@ || t == "issuetype"@ || t == "project"@ {
        FieldType::Unsupported
    } else if has_allowed {
        FieldType::Select
    } else {
        FieldType::Unsupported
    }
}

fn schema_str_of(field_val: &Json, key: &str) -> (r: String)
    ensures
        r@ == schema_str(*field_val, key@),
{
    match get_of(field_val, "schema") {
        Some(s) => match get_of(s, key) {
            Some(Json::Str(x)) => string_from_chars(&str_chars(x.as_str())),
            _ => string_from_chars(&Vec::new()),
        },
        None => string_from_chars(&Vec::new()),
    }
}

/// Classify a field's type based on its schema.
pub fn classify_field_type(field_val: &Json, allowed_values: &Vec<AllowedValue>) -> (r: FieldType)
    ensures
        r == field_type_of(*field_val, allowed_values.len() > 0),
{
    let t = schema_str_of(field_val, "type");
    let items = schema_str_of(field_val, "items");
    let system = schema_str_of(field_val, "system");
    let has_allowed = allowed_values.len() > 0;
    if text_is(&t, "string") {
        if text_is(&system, "description") {
            FieldType::TextArea
        } else {
            FieldType::Text
        }
    } else if text_is(&t, "number") {
        FieldType::Number
    } else if text_is(&t, "date") || text_is(&t, "datetime") {
        FieldType::Date
    } else if text_is(&t, "priority") || text_is(&t, "resolution") || text_is(&t, "option") {
        if !has_allowed {
            FieldType::Text
        } else {
            FieldType::Select
        }
    } else if text_is(&t, "array") {
        if text_is(&items, "string") {
            FieldType::Text
        } else if has_allowed {
            FieldType::MultiSelect
        } else {
            FieldType::Unsupported
        }
    } else if text_is(&t, "any") {
        if text_is(&system, "description") {
            FieldType::TextArea
        } else {
            FieldType::Unsupported
        }
    } else if text_is(&t, "user") || text_is(&t, "version") || text_is(&t, "issuetype")
        || text_is(&t, "project") {
        FieldType::Unsupported
    } else if has_allowed {
        FieldType::Select
    } else {
        FieldType::Unsupported
    }
}

// ── Allowed values ───────────────────────────────────────────────────

pub open spec fn allowed_view(a: AllowedValue) -> (Seq<char>, Seq<char>) {
    (a.id@, a.name@)
}

/// The items that have a string `id` and a string `name`, in order.
pub open spec fn allowed_of(items: Seq<Json>) -> Seq<(Seq<char>, Seq<char>)>
    decreases items.len(),
{
    if items.len() == 0 {
        Seq::empty()
    } else {
        let v = items.last();
        let prev = allowed_of(items.drop_last());
        match (idx(v, "id"@), idx(v, "name"@)) {
            (Json::Str(i), Json::Str(n)) => prev.push((i@, n@)),
            _ => prev,
        }
    }
}

/// The allowed values listed under `allowedValues`.
pub open spec fn field_allowed(field_val: Json) -> Seq<(Seq<char>, Seq<char>)> {
    match get(field_val, "allowedValues"@) {
        Some(Json::Array(v)) => allowed_of(v@),
        _ => Seq::empty(),
    }
}

fn allowed_values_of(field_val: &Json) -> (r: Vec<AllowedValue>)
    ensures
        r@.map_values(|a: AllowedValue| allowed_view(a)) == field_allowed(*field_val),
{
    let mut out: Vec<AllowedValue> = Vec::new();
    match get_of(field_val, "allowedValues") {
        Some(Json::Array(items)) => {
            let mut k: usize = 0;
            while k < items.len()
                invariant
                    k <= items.len(),
                    out@.map_values(|a: AllowedValue| allowed_view(a)) == allowed_of(
                        items@.subrange(0, k as int),
                    ),
                decreases items.len() - k,
            {
                assert(items@.subrange(0, k + 1).drop_last() =~= items@.subrange(0, k as int));
                let v = &items[k];
                let ghost before = out@.map_values(|a: AllowedValue| allowed_view(a));
                match (idx_of(v, "id"), idx_of(v, "name")) {
                    (Some(Json::Str(i)), Some(Json::Str(n))) => {
                        let a = AllowedValue {
                            id: string_from_chars(&str_chars(i.as_str())),
                            name: string_from_chars(&str_chars(n.as_str())),
                        };
                        out.push(a);
                        assert(out@.map_values(|a: AllowedValue| allowed_view(a)) =~= before.push(
                            (i@, n@),
                        ));
                    },
                    _ => {},
                }
                k = k + 1;
            }
            assert(items@.subrange(0, k as int) =~= items@);
        },
        _ => {
            assert(out@.map_values(|a: AllowedValue| allowed_view(a)) =~= Seq::<
                (Seq<char>, Seq<char>),
            >::empty());
        },
    }
    out
}

// ── Comments ─────────────────────────────────────────────────────────

pub struct CommentView {
    pub id: Seq<char>,
    pub author: Seq<char>,
    pub created: Seq<char>,
    pub body: Seq<char>,
}

impl View for JiraComment {
    type V = CommentView;

    open spec fn view(&self) -> CommentView {
        CommentView {
            id: self.id@,
            author: self.author@,
            created: self.created@,
            body: self.body@,
        }
    }
}

/// One comment of the response.
pub open spec fn comment_of(c: Json) -> CommentView {
    CommentView {
        id: str_or(idx(c, "id"@), Seq::empty()),
        author: str_or(idx(idx(c, "author"@), "displayName"@), "Unknown"@),
        created: str_or(idx(c, "created"@), Seq::empty()),
        body: if idx(c, "body"@) is Null {
            Seq::empty()
        } else {
            adf_text(idx(c, "body"@))
        },
    }
}

/// The comments listed under `comments`.
pub open spec fn comments_of(body: Json) -> Seq<Json> {
    array_items(idx(body, "comments"@))
}

/// Every comment body can be turned into text.
pub open spec fn comment_bodies_fit(body: Json) -> bool {
    forall|i: int|
        0 <= i < comments_of(body).len() ==> adf_fits(idx(#[trigger] comments_of(body)[i], "body"@))
}

/// Parse comments from the API response.
pub fn parse_comments(body: &Json) -> (r: Vec<JiraComment>)
    requires
        comment_bodies_fit(*body),
    ensures
        r@.len() == comments_of(*body).len(),
        forall|i: int| 0 <= i < r@.len() ==> #[trigger] r@[i]@ == comment_of(comments_of(*body)[i]),
{
    let mut out: Vec<JiraComment> = Vec::new();
    match idx_of(body, "comments") {
        Some(Json::Array(arr)) => {
            let mut k: usize = 0;
            while k < arr.len()
                invariant
                    k <= arr.len(),
                    arr@ == comments_of(*body),
                    comment_bodies_fit(*body),
                    out@.len() == k,
                    forall|i: int| 0 <= i < k ==> #[trigger] out@[i]@ == comment_of(arr@[i]),
                decreases arr.len() - k,
            {
                let c = &arr[k];
                let author = match idx_of(c, "author") {
                    Some(a) => str_or_of(idx_of(a, "displayName"), "Unknown"),
                    None => {
                        assert(idx(Json::Null, "displayName"@) == Json::Null);
                        str_or_of(None, "Unknown")
                    },
                };
                let text = match idx_of(c, "body") {
                    Some(b) => match b {
                        Json::Null => string_from_chars(&Vec::new()),
                        _ => {
                            assert(adf_fits(idx(comments_of(*body)[k as int], "body"@)));
                            adf_to_text(b)
                        },
                    },
                    None => string_from_chars(&Vec::new()),
                };
                let cm = JiraComment {
                    id: str_or_of(idx_of(c, "id"), ""),
                    author,
                    created: str_or_of(idx_of(c, "created"), ""),
                    body: text,
                };
                assert(""@ =~= Seq::<char>::empty()) by {
                    reveal_strlit("");
                }
                assert(cm@ == comment_of(arr@[k as int]));
                let ghost before = out@;
                out.push(cm);
                assert forall|i: int| 0 <= i < k + 1 implies #[trigger] out@[i]@ == comment_of(
                    arr@[i],
                ) by {
                    if i < k {
                        assert(out@[i] == before[i]);
                    }
                }
                k = k + 1;
            }
        },
        _ => {},
    }
    out
}

// ── Sprints ──────────────────────────────────────────────────────────

pub open spec fn state_is(s: Json, st: Seq<char>) -> bool {
    opt_str(get(s, "state"@)) == Some(st)
}

/// The first item whose state is `st`.
pub open spec fn first_in_state(arr: Seq<Json>, st: Seq<char>) -> Option<Json>
    decreases arr.len(),
{
    if arr.len() == 0 {
        None
    } else if state_is(arr[0], st) {
        Some(arr[0])
    } else {
        first_in_state(arr.drop_first(), st)
    }
}

/// The sprint whose name is shown: the active one, else the first future one, else the
/// last one; or the single sprint object.
pub open spec fn sprint_name(value: Json) -> Option<Seq<char>> {
    match value {
        Json::Array(v) => {
            let pick = match first_in_state(v@, "active"@) {
                Some(s) => Some(s),
                None => match first_in_state(v@, "future"@) {
                    Some(s) => Some(s),
                    None => if v@.len() > 0 {
                        Some(v@.last())
                    } else {
                        None
                    },
                },
            };
            match pick {
                Some(s) => opt_str(get(s, "name"@)),
                None => None,
            }
        },
        Json::Object(_) => opt_str(get(value, "name"@)),
        _ => None,
    }
}

fn first_in_state_of<'a>(arr: &'a Vec<Json>, st: &str) -> (r: Option<&'a Json>)
    ensures
        match r {
            Some(x) => first_in_state(arr@, st@) == Some(*x),
            None => first_in_state(arr@, st@) is None,
        },
{
    let mut i: usize = 0;
    assert(arr@.skip(0) =~= arr@);
    while i < arr.len()
        invariant
            i <= arr.len(),
            first_in_state(arr@, st@) == first_in_state(arr@.skip(i as int), st@),
        decreases arr.len() - i,
    {
        assert(arr@.skip(i as int).drop_first() =~= arr@.skip(i + 1));
        assert(arr@.skip(i as int)[0] == arr@[i as int]);
        let s = &arr[i];
        let hit = match get_of(s, "state") {
            Some(Json::Str(x)) => text_is(x, st),
            _ => false,
        };
        if hit {
            return Some(s);
        }
        i = i + 1;
    }
    None
}

fn name_of(s: &Json) -> (r: Option<String>)
    ensures
        match r {
            Some(x) => opt_str(get(*s, "name"@)) == Some(x@),
            None => opt_str(get(*s, "name"@)) is None,
        },
{
    match get_of(s, "name") {
        Some(Json::Str(n)) => Some(string_from_chars(&str_chars(n.as_str()))),
        _ => None,
    }
}

/// Extract the sprint name from the sprint field's value.
/// Handles both arrays (classic projects) and single objects (team-managed projects).
pub fn extract_sprint_name(value: &Json) -> (r: Option<String>)
    ensures
        match r {
            Some(x) => sprint_name(*value) == Some(x@),
            None => sprint_name(*value) is None,
        },
{
    match value {
        Json::Array(arr) => {
            let pick = match first_in_state_of(arr, "active") {
                Some(s) => Some(s),
                None => match first_in_state_of(arr, "future") {
                    Some(s) => Some(s),
                    None => if arr.len() > 0 {
                        Some(&arr[arr.len() - 1])
                    } else {
                        None
                    },
                },
            };
            match pick {
                Some(s) => name_of(s),
                None => None,
            }
        },
        Json::Object(_) => name_of(value),
        _ => None,
    }
}


// ── Transitions ──────────────────────────────────────────────────────

pub struct TransitionFieldView {
    pub field_id: Seq<char>,
    pub name: Seq<char>,
    pub field_type: FieldType,
    pub allowed_values: Seq<(Seq<char>, Seq<char>)>,
    pub is_comment: bool,
}

impl View for TransitionField {
    type V = TransitionFieldView;

    open spec fn view(&self) -> TransitionFieldView {
        TransitionFieldView {
            field_id: self.field_id@,
            name: self.name@,
            field_type: self.field_type,
            allowed_values: self.allowed_values@.map_values(|a: AllowedValue| allowed_view(a)),
            is_comment: self.is_comment,
        }
    }
}

pub struct TransitionView {
    pub id: Seq<char>,
    pub name: Seq<char>,
    pub to_name: Seq<char>,
    pub to_category: StatusCategory,
    pub required_fields: Seq<TransitionFieldView>,
}

impl View for JiraTransition {
    type V = TransitionView;

    open spec fn view(&self) -> TransitionView {
        TransitionView {
            id: self.id@,
            name: self.name@,
            to_name: self.to_status.name@,
            to_category: self.to_status.category,
            required_fields: self.required_fields@.map_values(|f: TransitionField| f@),
        }
    }
}

/// `value.as_bool().unwrap_or(false)`.
pub open spec fn bool_or_false(j: Json) -> bool {
    match j {
        Json::Bool(b) => b,
        _ => false,
    }
}

pub open spec fn transition_field_of(id: Seq<char>, fv: Json) -> TransitionFieldView {
    TransitionFieldView {
        field_id: id,
        name: str_or(idx(fv, "name"@), id),
        field_type: field_type_of(fv, field_allowed(fv).len() > 0),
        allowed_values: field_allowed(fv),
        is_comment: id == "comment"@,
    }
}

/// The required fields among the members of a transition's `fields` object, in order.
pub open spec fn required_fields(ms: Seq<(String, Json)>) -> Seq<TransitionFieldView>
    decreases ms.len(),
{
    if ms.len() == 0 {
        Seq::empty()
    } else if bool_or_false(idx(ms.last().1, "required"@)) {
        required_fields(ms.drop_last()).push(transition_field_of(ms.last().0@, ms.last().1))
    } else {
        required_fields(ms.drop_last())
    }
}

pub open spec fn object_members(j: Option<Json>) -> Seq<(String, Json)> {
    match j {
        Some(Json::Object(fs)) => fs@,
        _ => Seq::empty(),
    }
}

/// One transition of the response.
pub open spec fn transition_of(t: Json) -> TransitionView {
    let to = idx(t, "to"@);
    TransitionView {
        id: str_or(idx(t, "id"@), Seq::empty()),
        name: str_or(idx(t, "name"@), Seq::empty()),
        to_name: str_or(idx(to, "name"@), Seq::empty()),
        to_category: status_category_of(str_or(idx(idx(to, "statusCategory"@), "key"@), "new"@)),
        required_fields: required_fields(object_members(get(t, "fields"@))),
    }
}

pub open spec fn transitions_of(body: Json) -> Seq<Json> {
    array_items(idx(body, "transitions"@))
}

fn idx_or_null<'a>(j: &'a Json, key: &str, null: &'a Json) -> (r: &'a Json)
    requires
        *null == Json::Null,
    ensures
        *r == idx(*j, key@),
{
    match get_of(j, key) {
        Some(x) => x,
        None => null,
    }
}

fn required_fields_of(fields: Option<&Json>) -> (r: Vec<TransitionField>)
    ensures
        r@.map_values(|f: TransitionField| f@) == required_fields(
            object_members(
                match fields {
                    Some(x) => Some(*x),
                    None => None,
                },
            ),
        ),
{
    let mut out: Vec<TransitionField> = Vec::new();
    let null = Json::Null;
    match fields {
        Some(Json::Object(ms)) => {
            let mut k: usize = 0;
            while k < ms.len()
                invariant
                    k <= ms.len(),
                    null == Json::Null,
                    out@.map_values(|f: TransitionField| f@) == required_fields(ms@.subrange(0, k as int)),
                decreases ms.len() - k,
            {
                assert(ms@.subrange(0, k + 1).drop_last() =~= ms@.subrange(0, k as int));
                let (id, fv) = (&ms[k].0, &ms[k].1);
                let req = match idx_or_null(fv, "required", &null) {
                    Json::Bool(b) => *b,
                    _ => false,
                };
                if req {
                    let allowed = allowed_values_of(fv);
                    let ft = classify_field_type(fv, &allowed);
                    let name = match get_of(fv, "name") {
                        Some(Json::Str(n)) => string_from_chars(&str_chars(n.as_str())),
                        _ => string_from_chars(&str_chars(id.as_str())),
                    };
                    let f = TransitionField {
                        field_id: string_from_chars(&str_chars(id.as_str())),
                        name,
                        field_type: ft,
                        allowed_values: allowed,
                        is_comment: text_is(id, "comment"),
                    };
                    assert(f@ == transition_field_of(id@, *fv));
                    let ghost before = out@.map_values(|f: TransitionField| f@);
                    out.push(f);
                    assert(out@.map_values(|f: TransitionField| f@) =~= before.push(
                        transition_field_of(id@, *fv),
                    ));
                }
                k = k + 1;
            }
            assert(ms@.subrange(0, k as int) =~= ms@);
        },
        _ => {
            assert(out@.map_values(|f: TransitionField| f@) =~= Seq::<TransitionFieldView>::empty());
        },
    }
    out
}

/// Parse transitions from the API response.
pub fn parse_transitions(body: &Json) -> (r: Vec<JiraTransition>)
    ensures
        r@.len() == transitions_of(*body).len(),
        forall|i: int| 0 <= i < r@.len() ==> #[trigger] r@[i]@ == transition_of(transitions_of(*body)[i]),
{
    let mut out: Vec<JiraTransition> = Vec::new();
    let null = Json::Null;
    assert(""@ =~= Seq::<char>::empty()) by {
        reveal_strlit("");
    }
    match get_of(body, "transitions") {
        Some(Json::Array(ts)) => {
            let mut k: usize = 0;
            while k < ts.len()
                invariant
                    k <= ts.len(),
                    null == Json::Null,
                    ""@ == Seq::<char>::empty(),
                    ts@ == transitions_of(*body),
                    out@.len() == k,
                    forall|i: int| 0 <= i < k ==> #[trigger] out@[i]@ == transition_of(ts@[i]),
                decreases ts.len() - k,
            {
                let t = &ts[k];
                let to = idx_or_null(t, "to", &null);
                let sc = idx_or_null(to, "statusCategory", &null);
                let key = str_or_of(get_of(sc, "key"), "new");
                let tr = JiraTransition {
                    id: str_or_of(get_of(t, "id"), ""),
                    name: str_or_of(get_of(t, "name"), ""),
                    to_status: JiraStatus {
                        name: str_or_of(get_of(to, "name"), ""),
                        category: crate::jira::StatusCategory::from_key(key.as_str()),
                    },
                    required_fields: required_fields_of(get_of(t, "fields")),
                };
                assert(tr@ == transition_of(*t));
                let ghost before = out@;
                out.push(tr);
                assert forall|i: int| 0 <= i < k + 1 implies #[trigger] out@[i]@ == transition_of(
                    ts@[i],
                ) by {
                    if i < k {
                        assert(out@[i] == before[i]);
                    }
                }
                k = k + 1;
            }
        },
        _ => {},
    }
    out
}

// ── Edit metadata ────────────────────────────────────────────────────

pub struct EditableFieldView {
    pub field_id: Seq<char>,
    pub name: Seq<char>,
    pub field_type: FieldType,
    pub required: bool,
    pub allowed_values: Option<Seq<(Seq<char>, Seq<char>)>>,
}

impl View for EditableField {
    type V = EditableFieldView;

    open spec fn view(&self) -> EditableFieldView {
        EditableFieldView {
            field_id: self.field_id@,
            name: self.name@,
            field_type: self.field_type,
            required: self.required,
            allowed_values: match self.allowed_values {
                Some(v) => Some(v@.map_values(|a: AllowedValue| allowed_view(a))),
                None => None,
            },
        }
    }
}

/// Some operation is `set`.
pub open spec fn any_set(ops: Seq<Json>) -> bool
    decreases ops.len(),
{
    ops.len() > 0 && (opt_str(Some(ops.last())) == Some("set"@) || any_set(ops.drop_last()))
}

pub open spec fn can_set(fv: Json) -> bool {
    match get(fv, "operations"@) {
        Some(Json::Array(v)) => any_set(v@),
        _ => false,
    }
}

pub open spec fn editable_of(id: Seq<char>, fv: Json) -> EditableFieldView {
    EditableFieldView {
        field_id: id,
        name: str_or(idx(fv, "name"@), Seq::empty()),
        field_type: field_type_of(fv, field_allowed(fv).len() > 0),
        required: bool_or_false(idx(fv, "required"@)),
        allowed_values: if field_allowed(fv).len() == 0 {
            None
        } else {
            Some(field_allowed(fv))
        },
    }
}

/// The fields that can be set, in order, leaving out the description.
pub open spec fn editable_fields(ms: Seq<(String, Json)>) -> Seq<EditableFieldView>
    decreases ms.len(),
{
    if ms.len() == 0 {
        Seq::empty()
    } else if ms.last().0@ == "description"@ || !can_set(ms.last().1) {
        editable_fields(ms.drop_last())
    } else {
        editable_fields(ms.drop_last()).push(editable_of(ms.last().0@, ms.last().1))
    }
}

fn can_set_of(fv: &Json) -> (r: bool)
    ensures
        r == can_set(*fv),
{
    match get_of(fv, "operations") {
        Some(Json::Array(ops)) => {
            let mut k: usize = 0;
            let mut found = false;
            while k < ops.len()
                invariant
                    k <= ops.len(),
                    found == any_set(ops@.subrange(0, k as int)),
                decreases ops.len() - k,
            {
                assert(ops@.subrange(0, k + 1).drop_last() =~= ops@.subrange(0, k as int));
                let is_set = match &ops[k] {
                    Json::Str(x) => text_is(x, "set"),
                    _ => false,
                };
                found = found || is_set;
                k = k + 1;
            }
            assert(ops@.subrange(0, k as int) =~= ops@);
            found
        },
        _ => false,
    }
}

/// Parse editmeta response into a list of editable fields.
pub fn parse_edit_meta(body: &Json) -> (r: Vec<EditableField>)
    ensures
        r@.map_values(|f: EditableField| f@) == editable_fields(object_members(get(*body, "fields"@))),
{
    let mut out: Vec<EditableField> = Vec::new();
    let null = Json::Null;
    assert(""@ =~= Seq::<char>::empty()) by {
        reveal_strlit("");
    }
    match get_of(body, "fields") {
        Some(Json::Object(ms)) => {
            let mut k: usize = 0;
            while k < ms.len()
                invariant
                    k <= ms.len(),
                    null == Json::Null,
                    ""@ == Seq::<char>::empty(),
                    out@.map_values(|f: EditableField| f@) == editable_fields(ms@.subrange(0, k as int)),
                decreases ms.len() - k,
            {
                assert(ms@.subrange(0, k + 1).drop_last() =~= ms@.subrange(0, k as int));
                let (id, fv) = (&ms[k].0, &ms[k].1);
                if !text_is(id, "description") && can_set_of(fv) {
                    let allowed = allowed_values_of(fv);
                    let ft = classify_field_type(fv, &allowed);
                    let req = match idx_or_null(fv, "required", &null) {
                        Json::Bool(b) => *b,
                        _ => false,
                    };
                    let f = EditableField {
                        field_id: string_from_chars(&str_chars(id.as_str())),
                        name: str_or_of(get_of(fv, "name"), ""),
                        field_type: ft,
                        required: req,
                        allowed_values: if allowed.len() == 0 {
                            None
                        } else {
                            Some(allowed)
                        },
                    };
                    assert(f@ == editable_of(id@, *fv));
                    let ghost before = out@.map_values(|f: EditableField| f@);
                    out.push(f);
                    assert(out@.map_values(|f: EditableField| f@) =~= before.push(editable_of(id@, *fv)));
                }
                k = k + 1;
            }
            assert(ms@.subrange(0, k as int) =~= ms@);
        },
        _ => {
            assert(out@.map_values(|f: EditableField| f@) =~= Seq::<EditableFieldView>::empty());
        },
    }
    out
}


/// A field that creating an issue fills in itself.
pub open spec fn auto_set_field(id: Seq<char>) -> bool {
    id == "project"@ || id == "issuetype"@ || id == "reporter"@
}

/// The fields of a page of create metadata, in order, leaving out those set automatically.
pub open spec fn create_meta_fields(vs: Seq<Json>) -> Seq<EditableFieldView>
    decreases vs.len(),
{
    if vs.len() == 0 {
        Seq::empty()
    } else {
        let id = str_or(idx(vs.last(), "fieldId"@), Seq::empty());
        if auto_set_field(id) {
            create_meta_fields(vs.drop_last())
        } else {
            create_meta_fields(vs.drop_last()).push(editable_of(id, vs.last()))
        }
    }
}

/// The fields of one page of create metadata (`values` of the createmeta response).
pub fn parse_create_meta_fields(values: &Vec<Json>) -> (r: Vec<EditableField>)
    ensures
        r@.map_values(|f: EditableField| f@) == create_meta_fields(values@),
{
    let mut out: Vec<EditableField> = Vec::new();
    let null = Json::Null;
    assert(""@ =~= Seq::<char>::empty()) by {
        reveal_strlit("");
    }
    let mut k: usize = 0;
    while k < values.len()
        invariant
            k <= values.len(),
            null == Json::Null,
            ""@ == Seq::<char>::empty(),
            out@.map_values(|f: EditableField| f@) == create_meta_fields(values@.subrange(0, k as int)),
        decreases values.len() - k,
    {
        assert(values@.subrange(0, k + 1).drop_last() =~= values@.subrange(0, k as int));
        let fv = &values[k];
        let id = str_or_of(get_of(fv, "fieldId"), "");
        if !(text_is(&id, "project") || text_is(&id, "issuetype") || text_is(&id, "reporter")) {
            let allowed = allowed_values_of(fv);
            let ft = classify_field_type(fv, &allowed);
            let req = match idx_or_null(fv, "required", &null) {
                Json::Bool(b) => *b,
                _ => false,
            };
            let f = EditableField {
                field_id: id,
                name: str_or_of(get_of(fv, "name"), ""),
                field_type: ft,
                required: req,
                allowed_values: if allowed.len() == 0 {
                    None
                } else {
                    Some(allowed)
                },
            };
            assert(f@ == editable_of(str_or(idx(*fv, "fieldId"@), Seq::empty()), *fv));
            let ghost before = out@.map_values(|f: EditableField| f@);
            out.push(f);
            assert(out@.map_values(|f: EditableField| f@) =~= before.push(
                editable_of(str_or(idx(*fv, "fieldId"@), Seq::empty()), *fv),
            ));
        }
        k = k + 1;
    }
    assert(values@.subrange(0, k as int) =~= values@);
    out
}

// ── Issues ───────────────────────────────────────────────────────────

#[derive(Debug, Clone)]
pub struct EpicInfo {
    pub key: String,
    pub name: String,
}

/// A JIRA issue as displayed. Story points keep the number's text.
#[derive(Debug, Clone)]
pub struct JiraIssue {
    pub key: String,
    pub summary: String,
    pub status: JiraStatus,
    pub priority: Option<String>,
    pub issue_type: String,
    pub assignee: Option<String>,
    pub reporter: Option<String>,
    pub created: String,
    pub updated: String,
    pub description: Option<String>,
    pub sprint: Option<String>,
    pub epic: Option<EpicInfo>,
    pub story_points: Option<String>,
    pub labels: Vec<String>,
    pub components: Vec<String>,
    pub project_key: String,
    pub project_name: String,
}

pub struct IssueView {
    pub key: Seq<char>,
    pub summary: Seq<char>,
    pub status_name: Seq<char>,
    pub category: StatusCategory,
    pub priority: Option<Seq<char>>,
    pub issue_type: Seq<char>,
    pub assignee: Option<Seq<char>>,
    pub reporter: Option<Seq<char>>,
    pub created: Seq<char>,
    pub updated: Seq<char>,
    pub description: Option<Seq<char>>,
    pub sprint: Option<Seq<char>>,
    pub epic: Option<(Seq<char>, Seq<char>)>,
    pub story_points: Option<Seq<char>>,
    pub labels: Seq<Seq<char>>,
    pub components: Seq<Seq<char>>,
    pub project_key: Seq<char>,
    pub project_name: Seq<char>,
}

pub open spec fn opt_view(o: Option<String>) -> Option<Seq<char>> {
    match o {
        Some(s) => Some(s@),
        None => None,
    }
}

impl View for JiraIssue {
    type V = IssueView;

    open spec fn view(&self) -> IssueView {
        IssueView {
            key: self.key@,
            summary: self.summary@,
            status_name: self.status.name@,
            category: self.status.category,
            priority: opt_view(self.priority),
            issue_type: self.issue_type@,
            assignee: opt_view(self.assignee),
            reporter: opt_view(self.reporter),
            created: self.created@,
            updated: self.updated@,
            description: opt_view(self.description),
            sprint: opt_view(self.sprint),
            epic: match self.epic {
                Some(e) => Some((e.key@, e.name@)),
                None => None,
            },
            story_points: opt_view(self.story_points),
            labels: self.labels.deep_view(),
            components: self.components.deep_view(),
            project_key: self.project_key@,
            project_name: self.project_name@,
        }
    }
}

/// The items that are strings.
pub open spec fn string_values(items: Seq<Json>) -> Seq<Seq<char>>
    decreases items.len(),
{
    if items.len() == 0 {
        Seq::empty()
    } else {
        match items.last() {
            Json::Str(s) => string_values(items.drop_last()).push(s@),
            _ => string_values(items.drop_last()),
        }
    }
}

/// The string `name` of each item that has one.
pub open spec fn item_names(items: Seq<Json>) -> Seq<Seq<char>>
    decreases items.len(),
{
    if items.len() == 0 {
        Seq::empty()
    } else {
        match idx(items.last(), "name"@) {
            Json::Str(s) => item_names(items.drop_last()).push(s@),
            _ => item_names(items.drop_last()),
        }
    }
}

/// The parent, where it is an epic (hierarchy level 1, or type name `Epic`).
pub open spec fn epic_of(fields: Json) -> Option<(Seq<char>, Seq<char>)> {
    match get(fields, "parent"@) {
        Some(parent) => {
            let it = idx(idx(parent, "fields"@), "issuetype"@);
            let is_epic = (idx(it, "hierarchyLevel"@) matches Json::Number(Some(l), _) && l == 1)
                || opt_str(Some(idx(it, "name"@))) == Some("Epic"@);
            if is_epic {
                Some(
                    (
                        str_or(idx(parent, "key"@), Seq::empty()),
                        str_or(idx(idx(parent, "fields"@), "summary"@), Seq::empty()),
                    ),
                )
            } else {
                None
            }
        },
        None => None,
    }
}

/// One issue of a search response; `story_points_field` and `sprint_field` name the custom
/// fields that hold story points and sprints.
pub open spec fn issue_of(val: Json, story_points_field: Option<Seq<char>>, sprint_field: Option<Seq<char>>) -> IssueView {
    let fields = idx(val, "fields"@);
    let status = idx(fields, "status"@);
    let d = idx(fields, "description"@);
    IssueView {
        key: str_or(idx(val, "key"@), Seq::empty()),
        summary: str_or(idx(fields, "summary"@), Seq::empty()),
        status_name: str_or(idx(status, "name"@), "Unknown"@),
        category: status_category_of(str_or(idx(idx(status, "statusCategory"@), "key"@), "new"@)),
        priority: opt_str(Some(idx(idx(fields, "priority"@), "name"@))),
        issue_type: str_or(idx(idx(fields, "issuetype"@), "name"@), "Unknown"@),
        assignee: opt_str(Some(idx(idx(fields, "assignee"@), "displayName"@))),
        reporter: opt_str(Some(idx(idx(fields, "reporter"@), "displayName"@))),
        created: str_or(idx(fields, "created"@), Seq::empty()),
        updated: str_or(idx(fields, "updated"@), Seq::empty()),
        description: if d is Null || adf_text(d).len() == 0 {
            None
        } else {
            Some(adf_text(d))
        },
        sprint: match sprint_field {
            Some(f) => match get(fields, f) {
                Some(v) => sprint_name(v),
                None => None,
            },
            None => None,
        },
        epic: epic_of(fields),
        story_points: match story_points_field {
            Some(f) => match get(fields, f) {
                Some(Json::Number(_, t)) => Some(t@),
                _ => None,
            },
            None => None,
        },
        labels: string_values(array_items(idx(fields, "labels"@))),
        components: item_names(array_items(idx(fields, "components"@))),
        project_key: str_or(idx(idx(fields, "project"@), "key"@), Seq::empty()),
        project_name: str_or(idx(idx(fields, "project"@), "name"@), Seq::empty()),
    }
}

fn opt_str_of(j: &Json) -> (r: Option<String>)
    ensures
        opt_view(r) == opt_str(Some(*j)),
{
    match j {
        Json::Str(s) => Some(string_from_chars(&str_chars(s.as_str()))),
        _ => None,
    }
}

fn string_values_of(j: &Json) -> (r: Vec<String>)
    ensures
        r.deep_view() == string_values(array_items(*j)),
{
    let mut out: Vec<String> = Vec::new();
    match j {
        Json::Array(items) => {
            let mut k: usize = 0;
            while k < items.len()
                invariant
                    k <= items.len(),
                    out.deep_view() == string_values(items@.subrange(0, k as int)),
                decreases items.len() - k,
            {
                assert(items@.subrange(0, k + 1).drop_last() =~= items@.subrange(0, k as int));
                match &items[k] {
                    Json::Str(s) => {
                        let ghost before = out.deep_view();
                        out.push(string_from_chars(&str_chars(s.as_str())));
                        assert(out.deep_view() =~= before.push(s@));
                    },
                    _ => {},
                }
                k = k + 1;
            }
            assert(items@.subrange(0, k as int) =~= items@);
        },
        _ => {
            assert(out.deep_view() =~= Seq::<Seq<char>>::empty());
        },
    }
    out
}

fn item_names_of(j: &Json) -> (r: Vec<String>)
    ensures
        r.deep_view() == item_names(array_items(*j)),
{
    let mut out: Vec<String> = Vec::new();
    match j {
        Json::Array(items) => {
            let mut k: usize = 0;
            while k < items.len()
                invariant
                    k <= items.len(),
                    out.deep_view() == item_names(items@.subrange(0, k as int)),
                decreases items.len() - k,
            {
                assert(items@.subrange(0, k + 1).drop_last() =~= items@.subrange(0, k as int));
                match get_of(&items[k], "name") {
                    Some(Json::Str(s)) => {
                        let ghost before = out.deep_view();
                        out.push(string_from_chars(&str_chars(s.as_str())));
                        assert(out.deep_view() =~= before.push(s@));
                    },
                    _ => {},
                }
                k = k + 1;
            }
            assert(items@.subrange(0, k as int) =~= items@);
        },
        _ => {
            assert(out.deep_view() =~= Seq::<Seq<char>>::empty());
        },
    }
    out
}

fn epic_of_fields(fields: &Json) -> (r: Option<EpicInfo>)
    ensures
        match r {
            Some(e) => epic_of(*fields) == Some((e.key@, e.name@)),
            None => epic_of(*fields) is None,
        },
{
    let null = Json::Null;
    assert(""@ =~= Seq::<char>::empty()) by {
        reveal_strlit("");
    }
    match get_of(fields, "parent") {
        Some(parent) => {
            let pf = idx_or_null(parent, "fields", &null);
            let it = idx_or_null(pf, "issuetype", &null);
            let level_one = match idx_or_null(it, "hierarchyLevel", &null) {
                Json::Number(Some(l), _) => *l == 1,
                _ => false,
            };
            let named_epic = match idx_or_null(it, "name", &null) {
                Json::Str(n) => text_is(n, "Epic"),
                _ => false,
            };
            if level_one || named_epic {
                Some(
                    EpicInfo {
                        key: str_or_of(get_of(parent, "key"), ""),
                        name: str_or_of(get_of(pf, "summary"), ""),
                    },
                )
            } else {
                None
            }
        },
        None => None,
    }
}

/// Read one issue of a search response.
pub fn parse_issue(val: &Json, story_points_field: Option<&str>, sprint_field: Option<&str>) -> (r: JiraIssue)
    requires
        adf_fits(idx(idx(*val, "fields"@), "description"@)),
    ensures
        r@ == issue_of(
            *val,
            match story_points_field {
                Some(f) => Some(f@),
                None => None,
            },
            match sprint_field {
                Some(f) => Some(f@),
                None => None,
            },
        ),
{
    let null = Json::Null;
    assert(""@ =~= Seq::<char>::empty()) by {
        reveal_strlit("");
    }
    let fields = idx_or_null(val, "fields", &null);
    let status = idx_or_null(fields, "status", &null);
    let sc = idx_or_null(status, "statusCategory", &null);
    let key = str_or_of(get_of(sc, "key"), "new");
    let d = idx_or_null(fields, "description", &null);
    let description = match d {
        Json::Null => None,
        _ => {
            let t = adf_to_text(d);
            if t.as_str().is_empty() {
                None
            } else {
                Some(t)
            }
        },
    };
    let sprint = match sprint_field {
        Some(f) => match get_of(fields, f) {
            Some(v) => extract_sprint_name(v),
            None => None,
        },
        None => None,
    };
    let story_points = match story_points_field {
        Some(f) => match get_of(fields, f) {
            Some(Json::Number(_, t)) => Some(string_from_chars(&str_chars(t.as_str()))),
            _ => None,
        },
        None => None,
    };
    let issue = JiraIssue {
        key: str_or_of(get_of(val, "key"), ""),
        summary: str_or_of(get_of(fields, "summary"), ""),
        status: JiraStatus {
            name: str_or_of(get_of(status, "name"), "Unknown"),
            category: crate::jira::StatusCategory::from_key(key.as_str()),
        },
        priority: opt_str_of(idx_or_null(idx_or_null(fields, "priority", &null), "name", &null)),
        issue_type: str_or_of(get_of(idx_or_null(fields, "issuetype", &null), "name"), "Unknown"),
        assignee: opt_str_of(idx_or_null(idx_or_null(fields, "assignee", &null), "displayName", &null)),
        reporter: opt_str_of(idx_or_null(idx_or_null(fields, "reporter", &null), "displayName", &null)),
        created: str_or_of(get_of(fields, "created"), ""),
        updated: str_or_of(get_of(fields, "updated"), ""),
        description,
        sprint,
        epic: epic_of_fields(fields),
        story_points,
        labels: string_values_of(idx_or_null(fields, "labels", &null)),
        components: item_names_of(idx_or_null(fields, "components", &null)),
        project_key: str_or_of(get_of(idx_or_null(fields, "project", &null), "key"), ""),
        project_name: str_or_of(get_of(idx_or_null(fields, "project", &null), "name"), ""),
    };
    issue
}

// ── Which sprint is shown ────────────────────────────────────────────

proof fn lemma_first_in_state_at(arr: Seq<Json>, st: Seq<char>, k: int)
    requires
        0 <= k < arr.len(),
        opt_str(get(arr[k], "state"@)) == Some(st),
        forall|j: int| 0 <= j < k ==> opt_str(get(#[trigger] arr[j], "state"@)) != Some(st),
    ensures
        first_in_state(arr, st) == Some(arr[k]),
    decreases k,
{
    if k > 0 {
        let r = arr.drop_first();
        assert(opt_str(get(arr[0], "state"@)) != Some(st));
        assert forall|j: int| 0 <= j < k - 1 implies opt_str(get(#[trigger] r[j], "state"@)) != Some(st) by {
            assert(r[j] == arr[j + 1]);
        }
        assert(r[k - 1] == arr[k]);
        lemma_first_in_state_at(r, st, k - 1);
    }
}

proof fn lemma_none_in_state(arr: Seq<Json>, st: Seq<char>)
    requires
        forall|j: int| 0 <= j < arr.len() ==> opt_str(get(#[trigger] arr[j], "state"@)) != Some(st),
    ensures
        first_in_state(arr, st) is None,
    decreases arr.len(),
{
    if arr.len() > 0 {
        let r = arr.drop_first();
        assert(opt_str(get(arr[0], "state"@)) != Some(st));
        assert forall|j: int| 0 <= j < r.len() implies opt_str(get(#[trigger] r[j], "state"@)) != Some(st) by {
            assert(r[j] == arr[j + 1]);
        }
        lemma_none_in_state(r, st);
    }
}

/// Of a list of sprints, the name shown is that of the first sprint whose state is
/// `active`; where none is active, that of the first whose state is `future`; where none is
/// either, that of the last sprint.
pub proof fn lemma_sprint_choice(value: Json, k: int)
    requires
        value matches Json::Array(v) && 0 <= k < v@.len(),
    ensures
        ({
            let arr = array_items(value);
            let active = |x: Json| opt_str(get(x, "state"@)) == Some("active"@);
            let future = |x: Json| opt_str(get(x, "state"@)) == Some("future"@);
            &&& (active(arr[k]) && (forall|j: int| 0 <= j < k ==> !active(#[trigger] arr[j])))
                ==> sprint_name(value) == opt_str(get(arr[k], "name"@))
            &&& ((forall|j: int| 0 <= j < arr.len() ==> !active(#[trigger] arr[j])) && future(arr[k])
                && (forall|j: int| 0 <= j < k ==> !future(#[trigger] arr[j]))) ==> sprint_name(value)
                == opt_str(get(arr[k], "name"@))
            &&& ((forall|j: int| 0 <= j < arr.len() ==> !active(#[trigger] arr[j]) && !future(arr[j]))
                && k == arr.len() - 1) ==> sprint_name(value) == opt_str(get(arr[k], "name"@))
        }),
{
    reveal_strlit("active");
    reveal_strlit("future");
    let arr = array_items(value);
    let act = "active"@;
    let fut = "future"@;
    if opt_str(get(arr[k], "state"@)) == Some(act) && (forall|j: int| 0 <= j < k ==> !(opt_str(
        get(#[trigger] arr[j], "state"@),
    ) == Some(act))) {
        lemma_first_in_state_at(arr, act, k);
    }
    if (forall|j: int| 0 <= j < arr.len() ==> !(opt_str(get(#[trigger] arr[j], "state"@)) == Some(
        act,
    ))) {
        lemma_none_in_state(arr, act);
        if opt_str(get(arr[k], "state"@)) == Some(fut) && (forall|j: int| 0 <= j < k ==> !(opt_str(
            get(#[trigger] arr[j], "state"@),
        ) == Some(fut))) {
            lemma_first_in_state_at(arr, fut, k);
        }
        if (forall|j: int| 0 <= j < arr.len() ==> !(opt_str(get(#[trigger] arr[j], "state"@))
            == Some(fut))) {
            lemma_none_in_state(arr, fut);
        }
    }
}

/// A single sprint object shows its own name; an empty list, or a value that is neither a
/// list nor an object, shows none.
pub proof fn lemma_sprint_single_or_none(value: Json)
    ensures
        value is Object ==> sprint_name(value) == opt_str(get(value, "name"@)),
        !(value is Object) && array_items(value).len() == 0 ==> sprint_name(value) is None,
{
    if let Json::Array(v) = value {
        if v@.len() == 0 {
            lemma_none_in_state(v@, "active"@);
            lemma_none_in_state(v@, "future"@);
        }
    }
}

} // verus!
