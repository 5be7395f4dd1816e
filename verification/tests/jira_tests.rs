use jm_core::jira::{enable_plugin, setup_answer};
use jm_core::jira::{JiraError, StatusCategory};

#[test]
fn jira_error_display_status_only() {
    let e = JiraError { status_code: 404, error_messages: vec![], field_errors: vec![] };
    assert_eq!(e.display(), "HTTP 404");
}

#[test]
fn jira_error_display_messages_and_fields() {
    let e = JiraError {
        status_code: 400,
        error_messages: vec!["bad".to_string(), "worse".to_string()],
        field_errors: vec![("summary".to_string(), "required".to_string())],
    };
    assert_eq!(e.display(), "bad\nworse\nsummary: required");
}

#[test]
fn status_category_keys() {
    assert_eq!(StatusCategory::from_key("indeterminate"), StatusCategory::InProgress);
    assert_eq!(StatusCategory::from_key("done"), StatusCategory::Done);
    assert_eq!(StatusCategory::from_key("new"), StatusCategory::ToDo);
    assert_eq!(StatusCategory::from_key("undefined"), StatusCategory::ToDo);
    assert_eq!(StatusCategory::from_key("whatever"), StatusCategory::ToDo);
}

#[test]
fn jira_setup_answers_and_enabling() {
    assert_eq!(setup_answer("  https://x.atlassian.net ", "old"), "https://x.atlassian.net");
    assert_eq!(setup_answer("   ", "old"), "old");
    assert_eq!(setup_answer("", ""), "");
    let mut enabled = vec!["clock".to_string()];
    enable_plugin(&mut enabled, "jira");
    assert_eq!(enabled, vec!["clock".to_string(), "jira".to_string()]);
    enable_plugin(&mut enabled, "jira");
    assert_eq!(enabled.len(), 2);
}
