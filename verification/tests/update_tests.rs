use jm_core::date::Date;
use jm_core::events::Action;
use jm_core::project::Project;
use jm_core::status::IssueStatus;
use jm_core::update::{input_box_for, set_status_request_of};

#[test]
fn update_input_boxes() {
    let m = input_box_for(&Action::QuickNote, None).unwrap();
    assert_eq!(m.title, "Quick Note");
    assert_eq!(m.prompt, "Note:");
    assert_eq!(m.input, "");
    let mut p = Project::new_on("Alpha", Date { year: 2026, month: 1, day: 2 });
    p.tags = vec!["a".to_string(), "b".to_string()];
    p.target = Some(Date { year: 2026, month: 5, day: 9 });
    p.current_focus = "focus".to_string();
    let t = input_box_for(&Action::EditTags, Some(&p)).unwrap();
    assert_eq!(t.input, "a, b");
    assert_eq!(t.cursor_pos, 4);
    assert_eq!(input_box_for(&Action::EditTarget, Some(&p)).unwrap().input, "2026-05-09");
    assert_eq!(input_box_for(&Action::EditFocus, Some(&p)).unwrap().input, "focus");
    assert_eq!(input_box_for(&Action::EditFocus, None).unwrap().input, "");
    let c = input_box_for(&Action::OpenCommandMode, None).unwrap();
    assert_eq!(c.input, ":");
    assert_eq!(c.cursor_pos, 1);
    assert!(input_box_for(&Action::Quit, None).is_none());
}

#[test]
fn update_set_status_request() {
    assert_eq!(
        set_status_request_of("issue_board_set_status:hmi:12:done"),
        Some(("hmi".to_string(), 12, IssueStatus::Done))
    );
    assert_eq!(
        set_status_request_of("issue_board_set_status:hmi:x:active"),
        Some(("hmi".to_string(), 0, IssueStatus::Active))
    );
    assert_eq!(set_status_request_of("issue_board_set_status:hmi:12"), None);
    assert_eq!(set_status_request_of("issue_board_set_status:hmi:12:bogus"), None);
    assert_eq!(set_status_request_of("hello"), None);
}

use jm_core::events::{Focus, ScreenId};
use jm_core::modals::{InputAction, SelectAction};
use jm_core::update::{ui_effect, UiEffect};

#[test]
fn update_ui_actions() {
    let dash = ScreenId::Dashboard;
    assert!(matches!(ui_effect(&Action::ToggleSidebar, &dash, true, 2, None), UiEffect::SidebarVisible(false)));
    assert!(matches!(ui_effect(&Action::FocusSidebar, &dash, true, 2, None), UiEffect::SetFocus(Focus::Sidebar(0))));
    assert!(matches!(ui_effect(&Action::FocusSidebar, &dash, true, 0, None), UiEffect::Unchanged));
    match ui_effect(&Action::Help, &ScreenId::ProjectView("x".to_string()), true, 0, None) {
        UiEffect::Help(n) => assert_eq!(n, "project_view"),
        other => panic!("unexpected {:?}", other),
    }
    match ui_effect(&Action::StopWork, &dash, true, 0, None) {
        UiEffect::Select(m) => {
            assert_eq!(m.title, "Stop Working");
            assert_eq!(m.items, vec!["15 min break".to_string(), "Lunch".to_string(), "Done for day".to_string()]);
            assert!(matches!(m.on_submit, SelectAction::StopWorkChoice));
        }
        other => panic!("unexpected {:?}", other),
    }
    match ui_effect(&Action::DeleteProject, &ScreenId::ProjectView("hmi".to_string()), true, 0, None) {
        UiEffect::Confirm(t, m) => { assert_eq!(t, "Delete Project"); assert_eq!(m, "Delete project 'hmi'?"); }
        other => panic!("unexpected {:?}", other),
    }
    assert!(matches!(ui_effect(&Action::DeleteProject, &dash, true, 0, None), UiEffect::Unchanged));
    let empty: Vec<(u32, String)> = Vec::new();
    match ui_effect(&Action::AddSubIssue, &dash, true, 0, Some(&empty)) {
        UiEffect::Toast(m) => assert_eq!(m, "No issues to add sub-issue to."),
        other => panic!("unexpected {:?}", other),
    }
    let one = vec![(7u32, "Parent".to_string())];
    match ui_effect(&Action::AddSubIssue, &dash, true, 0, Some(&one)) {
        UiEffect::Input(m) => {
            assert_eq!(m.title, "Sub-issue of #7 Parent");
            assert_eq!(m.prompt, "Sub-issue title:");
            assert!(matches!(m.on_submit, InputAction::AddSubIssue(7)));
        }
        other => panic!("unexpected {:?}", other),
    }
    let two = vec![(7u32, "Parent".to_string()), (9u32, "Other".to_string())];
    match ui_effect(&Action::AddSubIssue, &dash, true, 0, Some(&two)) {
        UiEffect::Select(m) => assert_eq!(m.items, vec!["#7 Parent".to_string(), "#9 Other".to_string()]),
        other => panic!("unexpected {:?}", other),
    }
}
