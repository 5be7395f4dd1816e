use jm_core::jira_client::{rate_limited, JiraResult};
use jm_core::events::{KeyCode, KeyPress};
use jm_core::jira::{JiraError, StatusCategory};
use jm_core::jira_api::{JiraIssue, JiraStatus};
use jm_core::jira_api::EpicInfo;
use jm_core::jira_board::{build_field_names, format_last_sync, BoardRequest, JiraBoard};

fn issue(key: &str, status: &str, cat: StatusCategory, project: &str) -> JiraIssue {
    JiraIssue {
        key: key.to_string(),
        summary: String::new(),
        status: JiraStatus { name: status.to_string(), category: cat },
        priority: None,
        issue_type: "Task".to_string(),
        assignee: None,
        reporter: None,
        created: String::new(),
        updated: String::new(),
        description: None,
        sprint: None,
        epic: None,
        story_points: None,
        labels: vec![],
        components: vec![],
        project_key: project.to_string(),
        project_name: format!("{project} name"),
    }
}

fn key(c: char) -> KeyPress {
    KeyPress { code: KeyCode::Char(c), ctrl: false }
}

fn code(code: KeyCode) -> KeyPress {
    KeyPress { code, ctrl: false }
}

fn board() -> JiraBoard {
    let mut b = JiraBoard::new();
    b.issues = vec![
        issue("A-1", "Review", StatusCategory::InProgress, "B"),
        issue("A-2", "To Do", StatusCategory::ToDo, "A"),
        issue("A-3", "Closed", StatusCategory::Done, "A"),
        issue("A-4", "In Progress", StatusCategory::InProgress, "A"),
        issue("A-5", "To Do", StatusCategory::ToDo, "B"),
        issue("A-6", "Review", StatusCategory::InProgress, "A"),
    ];
    b.rebuild_columns();
    b
}

fn names(b: &JiraBoard) -> Vec<String> {
    b.board.columns.iter().map(|c| c.name.clone()).collect()
}

#[test]
fn columns_by_category_then_first_appearance() {
    let b = board();
    assert_eq!(names(&b), vec!["To Do", "Review", "In Progress"]);
    assert_eq!(b.filtered_issues(), vec![0, 1, 3, 4, 5]);
    assert_eq!(b.board.columns[0].issue_indices, vec![1, 3]);
    assert_eq!(b.board.columns[1].issue_indices, vec![0, 4]);
    assert_eq!(b.board.columns[2].issue_indices, vec![2]);
    assert_eq!(b.board.col_scroll_offsets, vec![0, 0, 0]);
}

#[test]
fn done_toggle_and_navigation() {
    let mut b = board();
    assert_eq!(b.handle_key(key('D')), BoardRequest::Nothing);
    assert!(b.show_done);
    assert_eq!(names(&b), vec!["To Do", "Review", "In Progress", "Closed"]);
    b.handle_key(code(KeyCode::Right));
    b.handle_key(key('j'));
    assert_eq!((b.board.selected_col, b.board.selected_row), (1, 1));
    b.handle_key(key('l'));
    assert_eq!((b.board.selected_col, b.board.selected_row), (2, 0));
    b.handle_key(key('h'));
    b.handle_key(key('G'));
    assert_eq!((b.board.selected_col, b.board.selected_row), (1, 1));
    b.handle_key(key('g'));
    assert_eq!(b.board.selected_row, 0);
    b.handle_key(code(KeyCode::Up));
    assert_eq!(b.board.selected_row, 0);
}

#[test]
fn requests_for_the_selected_issue() {
    let mut b = board();
    b.handle_key(key('l'));
    assert_eq!(b.handle_key(code(KeyCode::Enter)), BoardRequest::OpenDetail("A-1".to_string()));
    assert_eq!(b.handle_key(key('s')), BoardRequest::PickTransition("A-1".to_string()));
    assert_eq!(
        b.handle_key(key('c')),
        BoardRequest::LaunchEditor { content: String::new(), context: "comment:A-1".to_string() }
    );
    assert_eq!(b.handle_key(key('q')), BoardRequest::Back);
    assert_eq!(b.handle_key(code(KeyCode::Esc)), BoardRequest::Back);
}

#[test]
fn project_filter_cycles_through_sorted_keys() {
    let mut b = board();
    b.handle_key(key('p'));
    assert_eq!(b.project_filter.as_deref(), Some("A"));
    assert_eq!(names(&b), vec!["To Do", "In Progress", "Review"]);
    b.handle_key(key('p'));
    assert_eq!(b.project_filter.as_deref(), Some("B"));
    assert_eq!(names(&b), vec!["To Do", "Review"]);
    b.handle_key(key('p'));
    assert_eq!(b.project_filter, None);
    b.project_filter = Some("Z".to_string());
    b.rebuild_columns();
    assert!(b.board.columns.is_empty());
    // without columns, only Esc/q, R and n act
    assert_eq!(b.handle_key(key('p')), BoardRequest::Nothing);
    assert_eq!(b.project_filter.as_deref(), Some("Z"));
}

#[test]
fn create_and_refresh() {
    let mut b = board();
    assert_eq!(
        b.handle_key(key('n')),
        BoardRequest::ChooseProject(vec![
            ("A".to_string(), "A name".to_string()),
            ("B".to_string(), "B name".to_string()),
        ])
    );
    assert_eq!(b.handle_key(key('R')), BoardRequest::Refresh(1));
    assert!(b.refreshing);
    let mut empty = JiraBoard::new();
    assert_eq!(
        empty.handle_key(key('n')),
        BoardRequest::Error {
            title: "Cannot Create Issue".to_string(),
            message: "No projects found. Issues must be fetched first.".to_string(),
        }
    );
}

#[test]
fn results_from_the_service() {
    let mut b = JiraBoard::new();
    b.generation = 2;
    b.refreshing = true;
    assert!(!b.receive_issues(1, vec![issue("X-1", "To Do", StatusCategory::ToDo, "X")]));
    assert!(b.issues.is_empty() && !b.refreshing);
    assert!(b.receive_issues(2, vec![issue("X-1", "To Do", StatusCategory::ToDo, "X")]));
    assert_eq!(names(&b), vec!["To Do"]);
    let err = JiraError { status_code: 401, error_messages: vec![], field_errors: vec![] };
    let msg = b.receive_error("fetch issues", &err);
    assert!(msg.starts_with("JIRA: fetch issues — "));
    assert_eq!(b.last_error.as_deref(), Some(msg.as_str()));
}

#[test]
fn last_sync_age() {
    assert_eq!(format_last_sync(0), "0s ago");
    assert_eq!(format_last_sync(59), "59s ago");
    assert_eq!(format_last_sync(60), "1m ago");
    assert_eq!(format_last_sync(3599), "59m ago");
    assert_eq!(format_last_sync(3600), "1h ago");
    assert_eq!(format_last_sync(7300), "2h ago");
}

#[test]
fn detail_rows_follow_the_issue() {
    let plain = issue("A-1", "To Do", StatusCategory::ToDo, "A");
    assert_eq!(build_field_names(&plain), vec!["Status", "Priority", "Assignee", "Reporter", "Type", "Created", "Updated"]);
    let mut full = issue("A-2", "To Do", StatusCategory::ToDo, "A");
    full.story_points = Some("3".into());
    full.sprint = Some("Sprint 4".into());
    full.epic = Some(EpicInfo { key: "A-100".into(), name: "Epic".into() });
    full.labels = vec!["ui".into()];
    full.components = vec!["core".into()];
    assert_eq!(
        build_field_names(&full),
        vec!["Status", "Priority", "Assignee", "Reporter", "Type", "Points", "Sprint", "Epic", "Labels", "Components", "Created", "Updated"]
    );
    let mut b = JiraBoard::new();
    b.issues = vec![plain, full];
    assert_eq!(b.count_detail_fields_by_key("A-1"), 7);
    assert_eq!(b.count_detail_fields_by_key("A-2"), 12);
    assert_eq!(b.count_detail_fields_by_key("A-9"), 0);
}

#[test]
fn tick_takes_results_in_order() {
    let mut b = board();
    b.rebuild_columns();
    b.generation = 3;
    b.loading = true;
    b.refreshing = true;
    let fresh = vec![issue("N-1", "To Do", StatusCategory::ToDo, "A")];
    let notes = b.on_tick(vec![
        JiraResult::Issues { generation: 2, issues: vec![] },
        JiraResult::Error { context: "Fetching issues".into(), error: rate_limited() },
        JiraResult::Issues { generation: 3, issues: fresh },
        JiraResult::CommentAdded("N-1".into()),
    ]);
    assert_eq!(notes, vec!["JIRA: Fetching issues — Rate limited — max retries exceeded".to_string()]);
    assert_eq!(b.issues.len(), 1);
    assert_eq!(b.issues[0].key, "N-1");
    assert!(!b.loading && !b.refreshing);
    assert!(b.last_error.is_none());
    assert_eq!(b.board.columns.len(), 1);
    let notes = b.on_tick(vec![JiraResult::Error { context: "Updating x on N-1".into(), error: rate_limited() }]);
    assert_eq!(notes.len(), 1);
    assert_eq!(b.last_error.as_deref(), Some(notes[0].as_str()));
    assert_eq!(b.issues.len(), 1);
}
