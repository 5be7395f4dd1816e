use jm_core::jira::{default_refresh, FieldType, JiraConfig, StatusCategory};
use jm_core::jira_api::{
    classify_field_type, extract_sprint_name, parse_comments, parse_edit_meta, parse_issue,
    parse_transitions, AllowedValue,
};
use jm_core::json::Json;
use serde_json::Value;

fn to_json(v: &Value) -> Json {
    match v {
        Value::Null => Json::Null,
        Value::Bool(b) => Json::Bool(*b),
        Value::Number(n) => Json::Number(n.as_u64(), n.to_string()),
        Value::String(s) => Json::Str(s.clone()),
        Value::Array(a) => Json::Array(a.iter().map(to_json).collect()),
        Value::Object(m) => Json::Object(m.iter().map(|(k, v)| (k.clone(), to_json(v))).collect()),
    }
}

fn j(src: &str) -> Json {
    to_json(&serde_json::from_str::<Value>(src).unwrap())
}

fn cfg(url: &str, email: &str) -> JiraConfig {
    JiraConfig {
        url: url.to_string(),
        email: email.to_string(),
        refresh_interval_secs: 60,
        story_points_field: None,
        sprint_field: None,
    }
}

#[test]
fn validate_empty_url() {
    let config = cfg("", "test@test.com");
    assert!(config.validate(Some("token")).is_err());
}

#[test]
fn validate_empty_email() {
    let config = cfg("https://test.atlassian.net", "");
    assert!(config.validate(Some("token")).is_err());
}

#[test]
fn validate_messages_and_token() {
    assert_eq!(cfg("  ", "a").validate(Some("t")).unwrap_err(), "JIRA url is empty in config (plugins.jira.url)");
    assert_eq!(cfg("u", " ").validate(Some("t")).unwrap_err(), "JIRA email is empty in config (plugins.jira.email)");
    assert!(cfg("u", "e").validate(None).unwrap_err().starts_with("JIRA_API_TOKEN environment variable is not set."));
    assert!(cfg("u", "e").validate(Some("")).is_err());
    assert!(cfg("u", "e").validate(Some("t")).is_ok());
    assert_eq!(default_refresh(), 60);
}

#[test]
fn classify_fields() {
    let none: Vec<AllowedValue> = vec![];
    let some = vec![AllowedValue { id: "1".into(), name: "A".into() }];
    assert_eq!(classify_field_type(&j(r#"{"schema":{"type":"string"}}"#), &none), FieldType::Text);
    assert_eq!(classify_field_type(&j(r#"{"schema":{"type":"string","system":"description"}}"#), &none), FieldType::TextArea);
    assert_eq!(classify_field_type(&j(r#"{"schema":{"type":"number"}}"#), &none), FieldType::Number);
    assert_eq!(classify_field_type(&j(r#"{"schema":{"type":"datetime"}}"#), &none), FieldType::Date);
    assert_eq!(classify_field_type(&j(r#"{"schema":{"type":"option"}}"#), &none), FieldType::Text);
    assert_eq!(classify_field_type(&j(r#"{"schema":{"type":"option"}}"#), &some), FieldType::Select);
    assert_eq!(classify_field_type(&j(r#"{"schema":{"type":"array","items":"string"}}"#), &some), FieldType::Text);
    assert_eq!(classify_field_type(&j(r#"{"schema":{"type":"array","items":"x"}}"#), &some), FieldType::MultiSelect);
    assert_eq!(classify_field_type(&j(r#"{"schema":{"type":"array"}}"#), &none), FieldType::Unsupported);
    assert_eq!(classify_field_type(&j(r#"{"schema":{"type":"user"}}"#), &some), FieldType::Unsupported);
    assert_eq!(classify_field_type(&j(r#"{"schema":{"type":"weird"}}"#), &some), FieldType::Select);
    assert_eq!(classify_field_type(&j(r#"{}"#), &none), FieldType::Unsupported);
}

#[test]
fn transitions_parsed() {
    let body = j(r#"{"transitions":[{"id":"31","name":"Done","to":{"name":"Done","statusCategory":{"key":"done"}},
        "fields":{"resolution":{"required":true,"name":"Resolution","schema":{"type":"resolution"},
                                "allowedValues":[{"id":"1","name":"Fixed"},{"id":"2"}]},
                  "comment":{"required":true,"schema":{"type":"comment"}},
                  "labels":{"required":false}}},
        {"id":"11","name":"Start","to":{"name":"In Progress","statusCategory":{"key":"indeterminate"}}}]}"#);
    let ts = parse_transitions(&body);
    assert_eq!(ts.len(), 2);
    assert_eq!(ts[0].id, "31");
    assert_eq!(ts[0].to_status.category, StatusCategory::Done);
    assert_eq!(ts[0].required_fields.len(), 2);
    assert_eq!(ts[0].required_fields[0].field_id, "comment");
    assert!(ts[0].required_fields[0].is_comment);
    assert_eq!(ts[0].required_fields[0].name, "comment");
    assert_eq!(ts[0].required_fields[1].name, "Resolution");
    assert_eq!(ts[0].required_fields[1].allowed_values.len(), 1);
    assert_eq!(ts[0].required_fields[1].field_type, FieldType::Select);
    assert_eq!(ts[1].to_status.category, StatusCategory::InProgress);
    assert!(ts[1].required_fields.is_empty());
    assert!(parse_transitions(&j("{}")).is_empty());
}

#[test]
fn comments_parsed() {
    let body = j(r#"{"comments":[{"id":"1","author":{"displayName":"Ann"},"created":"2026-01-01",
        "body":{"type":"doc","content":[{"type":"paragraph","content":[{"type":"text","text":"hi"}]}]}},
        {"id":"2","body":null}]}"#);
    let cs = parse_comments(&body);
    assert_eq!(cs.len(), 2);
    assert_eq!((cs[0].author.as_str(), cs[0].body.as_str()), ("Ann", "hi"));
    assert_eq!((cs[1].author.as_str(), cs[1].body.as_str(), cs[1].created.as_str()), ("Unknown", "", ""));
}

#[test]
fn edit_meta_parsed() {
    let body = j(r#"{"fields":{"description":{"operations":["set"]},
        "summary":{"operations":["set"],"name":"Summary","required":true,"schema":{"type":"string"}},
        "watchers":{"operations":["add"]},
        "priority":{"operations":["set"],"name":"Priority","schema":{"type":"priority"},"allowedValues":[{"id":"1","name":"High"}]}}}"#);
    let fs = parse_edit_meta(&body);
    assert_eq!(fs.len(), 2);
    assert_eq!(fs[0].field_id, "priority");
    assert_eq!(fs[0].field_type, FieldType::Select);
    assert_eq!(fs[0].allowed_values.as_ref().unwrap()[0].name, "High");
    assert!(!fs[0].required);
    assert_eq!(fs[1].field_id, "summary");
    assert!(fs[1].required);
    assert!(fs[1].allowed_values.is_none());
}

#[test]
fn sprint_names() {
    assert_eq!(extract_sprint_name(&j(r#"[{"name":"S1","state":"closed"},{"name":"S2","state":"active"},{"name":"S3","state":"future"}]"#)), Some("S2".to_string()));
    assert_eq!(extract_sprint_name(&j(r#"[{"name":"S1","state":"closed"},{"name":"S3","state":"future"}]"#)), Some("S3".to_string()));
    assert_eq!(extract_sprint_name(&j(r#"[{"name":"S1","state":"closed"},{"name":"S4"}]"#)), Some("S4".to_string()));
    assert_eq!(extract_sprint_name(&j(r#"{"name":"Team"}"#)), Some("Team".to_string()));
    assert_eq!(extract_sprint_name(&j(r#"[]"#)), None);
    assert_eq!(extract_sprint_name(&j(r#""x""#)), None);
}

#[test]
fn issue_parsed() {
    let val = j(r#"{"key":"PROJ-7","fields":{"summary":"Fix it","status":{"name":"In Review","statusCategory":{"key":"indeterminate"}},
        "priority":{"name":"High"},"issuetype":{"name":"Bug"},"assignee":{"displayName":"Ann"},"reporter":null,
        "created":"2026-01-01","updated":"2026-01-02",
        "description":{"type":"doc","content":[{"type":"paragraph","content":[{"type":"text","text":"Steps"}]}]},
        "labels":["a",3,"b"],"components":[{"name":"UI"},{"id":"9"}],
        "customfield_1":5.5,"customfield_2":[{"name":"S1","state":"active"}],
        "parent":{"key":"PROJ-1","fields":{"summary":"Big","issuetype":{"hierarchyLevel":1}}},
        "project":{"key":"PROJ","name":"Project"}}}"#);
    let issue = parse_issue(&val, Some("customfield_1"), Some("customfield_2"));
    assert_eq!(issue.key, "PROJ-7");
    assert_eq!(issue.summary, "Fix it");
    assert_eq!(issue.status.name, "In Review");
    assert_eq!(issue.status.category, StatusCategory::InProgress);
    assert_eq!(issue.priority.as_deref(), Some("High"));
    assert_eq!(issue.issue_type, "Bug");
    assert_eq!(issue.assignee.as_deref(), Some("Ann"));
    assert_eq!(issue.reporter, None);
    assert_eq!(issue.description.as_deref(), Some("Steps"));
    assert_eq!(issue.labels, vec!["a".to_string(), "b".to_string()]);
    assert_eq!(issue.components, vec!["UI".to_string()]);
    assert_eq!(issue.story_points.as_deref(), Some("5.5"));
    assert_eq!(issue.sprint.as_deref(), Some("S1"));
    let epic = issue.epic.unwrap();
    assert_eq!((epic.key.as_str(), epic.name.as_str()), ("PROJ-1", "Big"));
    assert_eq!((issue.project_key.as_str(), issue.project_name.as_str()), ("PROJ", "Project"));

    let bare = parse_issue(&j(r#"{"fields":{"parent":{"key":"X-1","fields":{"issuetype":{"name":"Story"}}}}}"#), None, None);
    assert_eq!(bare.key, "");
    assert_eq!(bare.status.name, "Unknown");
    assert_eq!(bare.status.category, StatusCategory::ToDo);
    assert_eq!(bare.issue_type, "Unknown");
    assert!(bare.epic.is_none());
    assert!(bare.description.is_none());
    assert!(bare.labels.is_empty());
    assert!(bare.story_points.is_none());
}
