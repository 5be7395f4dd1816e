use jm_core::jira_api::parse_create_meta_fields;
use jm_core::jira_client::{
    authorization, error_from_body, myself_url, network_error, next_start, rate_limited,
    retry_delay, ApiSettings, HttpReply, JiraCommand, JiraResult, Method, RetryStep, Retrying,
    MAX_READ_RETRIES, MAX_WRITE_RETRIES,
};
use jm_core::json::Json;
use serde_json::Value;

fn to_json(v: &Value) -> Json {
    match v {
        Value::Null => Json::Null,
        Value::Bool(b) => Json::Bool(*b),
        Value::Number(n) => Json::Number(n.as_u64(), n.to_string()),
        Value::String(s) => Json::Str(s.clone()),
        Value::Array(a) => Json::Array(a.iter().map(to_json).collect()),
        Value::Object(m) => Json::Object(m.iter().map(|(k, v)| (k.clone(), to_json(v))).collect()),
    }
}

fn to_value(j: &Json) -> Value {
    match j {
        Json::Null => Value::Null,
        Json::Bool(b) => Value::Bool(*b),
        Json::Number(_, t) => serde_json::from_str(t).unwrap(),
        Json::Str(s) => Value::String(s.clone()),
        Json::Array(a) => Value::Array(a.iter().map(to_value).collect()),
        Json::Object(m) => Value::Object(m.iter().map(|(k, v)| (k.clone(), to_value(v))).collect()),
    }
}

fn j(src: &str) -> Json {
    to_json(&serde_json::from_str::<Value>(src).unwrap())
}

fn v(src: &str) -> Value {
    serde_json::from_str(src).unwrap()
}

fn settings() -> ApiSettings {
    ApiSettings::new("https://org.atlassian.net//", "acc-1", Some("customfield_10016"), None)
}

fn reply(status: u16, retry_after: Option<&str>, body: Result<Json, String>) -> HttpReply {
    HttpReply::Received { status, retry_after: retry_after.map(|s| s.to_string()), body }
}

#[test]
fn retry_delay_reads_the_header() {
    assert_eq!(retry_delay(None), 60);
    assert_eq!(retry_delay(Some("30")), 30);
    assert_eq!(retry_delay(Some("+7")), 7);
    assert_eq!(retry_delay(Some("500")), 120);
    assert_eq!(retry_delay(Some("soon")), 60);
    assert_eq!(retry_delay(Some("")), 60);
    assert_eq!(retry_delay(Some("-5")), 60);
    assert_eq!(retry_delay(Some("18446744073709551615")), 120);
    assert_eq!(retry_delay(Some("18446744073709551616")), 60);
}

#[test]
fn rate_limit_waits_then_gives_up() {
    let mut r = Retrying::new(Method::Get, MAX_READ_RETRIES);
    for n in 1..=3 {
        match r.on_reply(reply(429, Some("2"), Err("empty".into()))) {
            RetryStep::Wait(s) => assert_eq!(s, 2),
            _ => panic!("expected a wait"),
        }
        assert_eq!(r.retries, n);
    }
    match r.on_reply(reply(429, None, Err("empty".into()))) {
        RetryStep::Done(Err(e)) => {
            assert_eq!(e.status_code, 429);
            assert_eq!(e.error_messages, vec!["Rate limited — max retries exceeded".to_string()]);
            assert!(e.field_errors.is_empty());
        }
        _ => panic!("expected the rate-limit error"),
    }
    assert_eq!(r.retries, 3);
    let mut w = Retrying::new(Method::Post, MAX_WRITE_RETRIES);
    assert!(matches!(w.on_reply(reply(429, None, Err("x".into()))), RetryStep::Wait(60)));
    assert!(matches!(w.on_reply(reply(429, None, Err("x".into()))), RetryStep::Done(Err(_))));
}

#[test]
fn success_by_method() {
    let mut g = Retrying::new(Method::Get, 3);
    match g.on_reply(reply(200, None, Ok(j(r#"{"a":1}"#)))) {
        RetryStep::Done(Ok(Some(b))) => assert_eq!(to_value(&b), v(r#"{"a":1}"#)),
        _ => panic!("expected the body"),
    }
    let mut g = Retrying::new(Method::Get, 3);
    match g.on_reply(reply(200, None, Err("EOF while parsing".into()))) {
        RetryStep::Done(Err(e)) => {
            assert_eq!(e.status_code, 0);
            assert_eq!(e.error_messages, vec!["JSON parse error: EOF while parsing".to_string()]);
        }
        _ => panic!("expected a parse error"),
    }
    let mut p = Retrying::new(Method::Post, 1);
    assert!(matches!(p.on_reply(reply(204, None, Err("no body".into()))), RetryStep::Done(Ok(None))));
    let mut p = Retrying::new(Method::Post, 1);
    assert!(matches!(p.on_reply(reply(201, None, Ok(j(r#"{"key":"X-1"}"#)))), RetryStep::Done(Ok(Some(_)))));
    let mut u = Retrying::new(Method::Put, 1);
    assert!(matches!(u.on_reply(reply(204, None, Ok(j("{}")))), RetryStep::Done(Ok(None))));
}

#[test]
fn other_status_reads_the_error_body() {
    let mut g = Retrying::new(Method::Get, 3);
    let body = j(r#"{"errorMessages":["Issue does not exist"],"errors":{"summary":"required"}}"#);
    match g.on_reply(reply(404, None, Ok(body))) {
        RetryStep::Done(Err(e)) => {
            assert_eq!(e.status_code, 404);
            assert_eq!(e.error_messages, vec!["Issue does not exist".to_string()]);
            assert_eq!(e.field_errors, vec![("summary".to_string(), "required".to_string())]);
            assert_eq!(e.display(), "Issue does not exist\nsummary: required");
        }
        _ => panic!("expected an error"),
    }
    let mut g = Retrying::new(Method::Get, 3);
    match g.on_reply(reply(500, None, Err("not json".into()))) {
        RetryStep::Done(Err(e)) => assert_eq!(e.display(), "HTTP 500"),
        _ => panic!("expected an error"),
    }
    match Retrying::new(Method::Put, 1).on_reply(HttpReply::Unreachable("timed out".into())) {
        RetryStep::Done(Err(e)) => assert_eq!(e.error_messages, vec!["Network error: timed out".to_string()]),
        _ => panic!("expected a network error"),
    }
}

#[test]
fn error_body_shapes() {
    let e = error_from_body(400, Some(&j(r#"{"errorMessages":["a",1]}"#)));
    assert!(e.error_messages.is_empty() && e.field_errors.is_empty());
    let e = error_from_body(400, Some(&j(r#"{"errors":{"f":2}}"#)));
    assert!(e.error_messages.is_empty() && e.field_errors.is_empty());
    let e = error_from_body(400, Some(&j(r#"{"errorMessages":null}"#)));
    assert!(e.error_messages.is_empty());
    let e = error_from_body(400, Some(&j(r#"{"other":1,"errorMessages":["m"]}"#)));
    assert_eq!(e.error_messages, vec!["m".to_string()]);
    let e = error_from_body(400, Some(&j(r#"[["a"],{"f":"m"}]"#)));
    assert_eq!(e.error_messages, vec!["a".to_string()]);
    assert_eq!(e.field_errors, vec![("f".to_string(), "m".to_string())]);
    let e = error_from_body(400, Some(&j(r#"[["a"],{},3]"#)));
    assert!(e.error_messages.is_empty());
    let e = error_from_body(400, Some(&j(r#""text""#)));
    assert!(e.error_messages.is_empty());
    let twice = Json::Object(vec![
        ("errorMessages".to_string(), j(r#"["a"]"#)),
        ("errorMessages".to_string(), j(r#"["b"]"#)),
    ]);
    assert!(error_from_body(400, Some(&twice)).error_messages.is_empty());
    let repeated = Json::Object(vec![(
        "errors".to_string(),
        Json::Object(vec![
            ("f".to_string(), Json::Str("1".into())),
            ("g".to_string(), Json::Str("2".into())),
            ("f".to_string(), Json::Str("3".into())),
        ]),
    )]);
    let e = error_from_body(422, Some(&repeated));
    assert_eq!(e.field_errors, vec![("g".to_string(), "2".to_string()), ("f".to_string(), "3".to_string())]);
    assert_eq!(error_from_body(418, None).display(), "HTTP 418");
}

#[test]
fn fixed_errors() {
    assert_eq!(network_error("dns").error_messages, vec!["Network error: dns".to_string()]);
    assert_eq!(network_error("dns").status_code, 0);
    assert_eq!(rate_limited().status_code, 429);
}

#[test]
fn credentials_and_urls() {
    assert_eq!(authorization("a@b.c", "tok"), "Basic YUBiLmM6dG9r");
    assert_eq!(myself_url("https://org.atlassian.net/"), "https://org.atlassian.net/rest/api/3/myself");
    assert_eq!(myself_url("https://org.atlassian.net"), "https://org.atlassian.net/rest/api/3/myself");
    assert_eq!(settings().base_url, "https://org.atlassian.net");
}

fn request(cmd: &JiraCommand, start_at: u64) -> (Method, String, Option<Value>) {
    let q = cmd.request(&settings(), start_at).unwrap();
    (q.method, q.url, q.body.as_ref().map(to_value))
}

#[test]
fn read_requests() {
    let (m, url, body) = request(&JiraCommand::FetchMyIssues { generation: 4 }, 200);
    assert_eq!(m, Method::Get);
    assert!(body.is_none());
    assert_eq!(
        url,
        "https://org.atlassian.net/rest/api/3/search?jql=assignee%3D'acc-1'%20ORDER%20BY%20updated%20DESC&startAt=200&maxResults=100&fields=summary,status,priority,issuetype,assignee,reporter,created,updated,description,labels,components,project,parent,customfield_10016"
    );
    let (_, url, _) = request(&JiraCommand::FetchTransitions { issue_key: "P-1".into() }, 0);
    assert_eq!(url, "https://org.atlassian.net/rest/api/3/issue/P-1/transitions?expand=transitions.fields");
    let (_, url, _) = request(&JiraCommand::FetchComments { issue_key: "P-1".into() }, 0);
    assert_eq!(url, "https://org.atlassian.net/rest/api/3/issue/P-1/comment?startAt=0&maxResults=50&orderBy=-created");
    let (_, url, _) = request(
        &JiraCommand::FetchCreateMeta { project_key: "P".into(), issue_type_id: "10001".into() },
        50,
    );
    assert_eq!(url, "https://org.atlassian.net/rest/api/3/issue/createmeta/P/issuetypes/10001?startAt=50&maxResults=50");
    let (_, url, _) = request(&JiraCommand::FetchEditMeta { issue_key: "P-1".into() }, 0);
    assert_eq!(url, "https://org.atlassian.net/rest/api/3/issue/P-1/editmeta");
    let (_, url, _) = request(&JiraCommand::FetchFields, 0);
    assert_eq!(url, "https://org.atlassian.net/rest/api/3/field");
    let (_, url, _) = request(&JiraCommand::FetchIssueTypes { project_key: "P".into() }, 0);
    assert_eq!(url, "https://org.atlassian.net/rest/api/3/issue/createmeta/P/issuetypes");
    assert!(JiraCommand::Shutdown.request(&settings(), 0).is_none());
}

#[test]
fn transition_bodies() {
    let t = |fields: Option<Json>| {
        request(&JiraCommand::TransitionIssue { issue_key: "P-1".into(), transition_id: "31".into(), fields }, 0)
    };
    let (m, url, body) = t(None);
    assert_eq!(m, Method::Post);
    assert_eq!(url, "https://org.atlassian.net/rest/api/3/issue/P-1/transitions");
    assert_eq!(body.unwrap(), v(r#"{"transition":{"id":"31"}}"#));
    let (_, _, body) = t(Some(j(r#"{"resolution":{"name":"Done"}}"#)));
    assert_eq!(body.unwrap(), v(r#"{"transition":{"id":"31"},"fields":{"resolution":{"name":"Done"}}}"#));
    let (_, _, body) = t(Some(j(r#"{"update":{"comment":[]}}"#)));
    assert_eq!(body.unwrap(), v(r#"{"transition":{"id":"31"},"update":{"comment":[]}}"#));
    let (_, _, body) = t(Some(j(r#"{"update":{"c":1},"fields":{"f":2}}"#)));
    assert_eq!(body.unwrap(), v(r#"{"transition":{"id":"31"},"update":{"c":1},"fields":{"f":2}}"#));
}

#[test]
fn write_bodies() {
    let (m, url, body) = request(
        &JiraCommand::UpdateField { issue_key: "P-1".into(), field_id: "summary".into(), value: j(r#""New""#) },
        0,
    );
    assert_eq!(m, Method::Put);
    assert_eq!(url, "https://org.atlassian.net/rest/api/3/issue/P-1?notifyUsers=false");
    assert_eq!(body.unwrap(), v(r#"{"fields":{"summary":"New"}}"#));
    let (m, url, body) =
        request(&JiraCommand::AddComment { issue_key: "P-1".into(), body: j(r#"{"type":"doc"}"#) }, 0);
    assert_eq!(m, Method::Post);
    assert_eq!(url, "https://org.atlassian.net/rest/api/3/issue/P-1/comment");
    assert_eq!(body.unwrap(), v(r#"{"body":{"type":"doc"}}"#));
    let (_, url, body) = request(
        &JiraCommand::CreateIssue {
            project_key: "P".into(),
            fields: j(r#"{"summary":"S","project":{"key":"OTHER"}}"#),
        },
        0,
    );
    assert_eq!(url, "https://org.atlassian.net/rest/api/3/issue");
    assert_eq!(
        body.unwrap(),
        v(r#"{"fields":{"summary":"S","project":{"key":"P"},"assignee":{"accountId":"acc-1"},"reporter":{"accountId":"acc-1"}}}"#)
    );
}

#[test]
fn results_of_calls() {
    let create = JiraCommand::CreateIssue { project_key: "P".into(), fields: j("{}") };
    match create.succeeded(Some(j(r#"{"id":"1","key":"P-9"}"#))) {
        Some(JiraResult::IssueCreated(k)) => assert_eq!(k, "P-9"),
        _ => panic!("expected the created key"),
    }
    match create.succeeded(None) {
        Some(JiraResult::IssueCreated(k)) => assert_eq!(k, "???"),
        _ => panic!("expected the placeholder key"),
    }
    let tr = JiraCommand::TransitionIssue { issue_key: "P-1".into(), transition_id: "3".into(), fields: None };
    assert!(matches!(tr.succeeded(None), Some(JiraResult::TransitionComplete(ref k)) if k == "P-1"));
    match tr.failed(rate_limited()) {
        JiraResult::TransitionFailed(k, e) => {
            assert_eq!(k, "P-1");
            assert_eq!(e.status_code, 429);
        }
        _ => panic!("expected a failed transition"),
    }
    let upd = JiraCommand::UpdateField { issue_key: "P-1".into(), field_id: "labels".into(), value: Json::Null };
    assert_eq!(upd.context(), "Updating labels on P-1");
    match upd.failed(network_error("x")) {
        JiraResult::Error { context, .. } => assert_eq!(context, "Updating labels on P-1"),
        _ => panic!("expected an error"),
    }
    assert_eq!(JiraCommand::FetchMyIssues { generation: 1 }.context(), "Fetching issues");
    assert_eq!(
        JiraCommand::FetchCreateMeta { project_key: "P".into(), issue_type_id: "7".into() }.context(),
        "Fetching createmeta for P/7"
    );
    let tr_fetch = JiraCommand::FetchTransitions { issue_key: "P-1".into() };
    match tr_fetch.succeeded(Some(j(r#"{"transitions":[{"id":"11","name":"Start","to":{"name":"In Progress","statusCategory":{"key":"indeterminate"}}}]}"#))) {
        Some(JiraResult::Transitions(k, ts)) => {
            assert_eq!(k, "P-1");
            assert_eq!(ts.len(), 1);
            assert_eq!(ts[0].id, "11");
        }
        _ => panic!("expected transitions"),
    }
    assert!(JiraCommand::FetchFields.succeeded(None).is_none());
    match (JiraCommand::FetchMyIssues { generation: 1 }).page_unreadable("missing field") {
        Some(JiraResult::Error { context, error }) => {
            assert_eq!(context, "Parsing search response");
            assert_eq!(error.error_messages, vec!["Parse error: missing field".to_string()]);
        }
        _ => panic!("expected a parse failure"),
    }
    assert!(JiraCommand::FetchFields.page_unreadable("x").is_none());
}

#[test]
fn paging() {
    assert_eq!(next_start(0, 100, 100), Some(100));
    assert_eq!(next_start(100, 40, 100), None);
    assert_eq!(next_start(100, 0, 100), None);
    assert_eq!(next_start(50, 50, 50), Some(100));
}

#[test]
fn create_meta_leaves_out_automatic_fields() {
    let values = match j(r#"[
        {"fieldId":"project","name":"Project","required":true},
        {"fieldId":"summary","name":"Summary","required":true,"schema":{"type":"string"}},
        {"fieldId":"issuetype","name":"Issue Type"},
        {"fieldId":"priority","name":"Priority","schema":{"type":"priority"},"allowedValues":[{"id":"1","name":"High"}]},
        {"fieldId":"reporter","name":"Reporter"}
    ]"#) {
        Json::Array(a) => a,
        _ => unreachable!(),
    };
    let fields = parse_create_meta_fields(&values);
    assert_eq!(fields.len(), 2);
    assert_eq!(fields[0].field_id, "summary");
    assert!(fields[0].required);
    assert!(fields[0].allowed_values.is_none());
    assert_eq!(fields[1].field_id, "priority");
    assert_eq!(fields[1].allowed_values.as_ref().unwrap()[0].name, "High");
}

#[test]
fn authorization_encodes_utf8_bytes() {
    assert_eq!(authorization("é", "x"), "Basic w6k6eA==");
    assert_eq!(authorization("a😀", ""), "Basic YfCfmIA6");
}
