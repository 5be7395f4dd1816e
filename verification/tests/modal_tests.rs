use jm_core::events::{Action, KeyCode, KeyPress};
use jm_core::modals::{InputAction, InputModal, SelectAction, SelectModal};

fn key(code: KeyCode) -> KeyPress {
    KeyPress { code, ctrl: false }
}

fn ctrl(c: char) -> KeyPress {
    KeyPress { code: KeyCode::Char(c), ctrl: true }
}

fn typed(m: &mut InputModal, s: &str) {
    for c in s.chars() {
        assert!(matches!(m.handle_key(key(KeyCode::Char(c))), Action::NoAction));
    }
}

#[test]
fn input_new_and_initial() {
    let m = InputModal::new("Note", "Text:", InputAction::QuickNote);
    assert_eq!((m.title.as_str(), m.prompt.as_str(), m.input.as_str(), m.cursor_pos), ("Note", "Text:", "", 0));
    let m = InputModal::with_initial("Tags", "Tags:", "héllo", InputAction::EditTags);
    assert_eq!(m.input, "héllo");
    assert_eq!(m.cursor_pos, 5);
}

#[test]
fn input_typing_and_cursor() {
    let mut m = InputModal::new("t", "p", InputAction::AddProject);
    typed(&mut m, "abc");
    assert_eq!((m.input.as_str(), m.cursor_pos), ("abc", 3));
    m.handle_key(key(KeyCode::Left));
    m.handle_key(key(KeyCode::Left));
    typed(&mut m, "é");
    assert_eq!((m.input.as_str(), m.cursor_pos), ("aébc", 2));
    m.handle_key(key(KeyCode::Home));
    m.handle_key(key(KeyCode::Left));
    assert_eq!(m.cursor_pos, 0);
    m.handle_key(key(KeyCode::End));
    m.handle_key(key(KeyCode::Right));
    assert_eq!(m.cursor_pos, 4);
    // Control with another letter neither types nor edits.
    m.handle_key(ctrl('x'));
    assert_eq!((m.input.as_str(), m.cursor_pos), ("aébc", 4));
}

#[test]
fn input_deleting() {
    let mut m = InputModal::with_initial("t", "p", "héllo", InputAction::QuickNote);
    m.handle_key(key(KeyCode::Backspace));
    assert_eq!((m.input.as_str(), m.cursor_pos), ("héll", 4));
    m.handle_key(key(KeyCode::Delete));
    assert_eq!(m.input, "héll");
    m.handle_key(key(KeyCode::Home));
    m.handle_key(key(KeyCode::Backspace));
    assert_eq!((m.input.as_str(), m.cursor_pos), ("héll", 0));
    m.handle_key(key(KeyCode::Delete));
    assert_eq!((m.input.as_str(), m.cursor_pos), ("éll", 0));
}

#[test]
fn input_ctrl_w_and_u() {
    let mut m = InputModal::with_initial("t", "p", "fix the  bug  ", InputAction::QuickNote);
    m.handle_key(ctrl('w'));
    assert_eq!((m.input.as_str(), m.cursor_pos), ("fix the  ", 9));
    m.handle_key(ctrl('w'));
    assert_eq!((m.input.as_str(), m.cursor_pos), ("fix ", 4));
    let mut m = InputModal::with_initial("t", "p", "one two", InputAction::QuickNote);
    m.handle_key(key(KeyCode::Left));
    m.handle_key(key(KeyCode::Left));
    m.handle_key(ctrl('u'));
    assert_eq!((m.input.as_str(), m.cursor_pos), ("wo", 0));
    m.handle_key(ctrl('w'));
    assert_eq!((m.input.as_str(), m.cursor_pos), ("wo", 0));
}

#[test]
fn input_submit_and_cancel() {
    let mut m = InputModal::with_initial("t", "p", "done", InputAction::AddSubIssue(3));
    match m.handle_key(key(KeyCode::Enter)) {
        Action::SubmitInput(s) => assert_eq!(s, "done"),
        other => panic!("unexpected {:?}", other),
    }
    assert!(matches!(m.handle_key(key(KeyCode::Esc)), Action::PopModal));
    assert!(matches!(m.handle_key(key(KeyCode::Other)), Action::NoAction));
    assert_eq!((m.input.as_str(), m.cursor_pos), ("done", 4));
    assert!(matches!(m.on_submit, InputAction::AddSubIssue(3)));
}

#[test]
fn input_type_then_erase_restores() {
    let mut m = InputModal::with_initial("t", "p", "abcd", InputAction::QuickNote);
    m.handle_key(key(KeyCode::Left));
    typed(&mut m, "x");
    m.handle_key(key(KeyCode::Backspace));
    assert_eq!((m.input.as_str(), m.cursor_pos), ("abcd", 3));
}

#[test]
fn select_navigation() {
    let items = vec!["a".to_string(), "b".to_string(), "c".to_string()];
    let mut m = SelectModal::new("Pick", items, SelectAction::ChooseBlocker);
    assert_eq!(m.selected, 0);
    m.handle_key(key(KeyCode::Up));
    assert_eq!(m.selected, 0);
    m.handle_key(key(KeyCode::Char('j')));
    m.handle_key(key(KeyCode::Down));
    m.handle_key(key(KeyCode::Down));
    assert_eq!(m.selected, 2);
    m.handle_key(key(KeyCode::Char('k')));
    assert_eq!(m.selected, 1);
    match m.handle_key(key(KeyCode::Enter)) {
        Action::SubmitInput(s) => assert_eq!(s, "1"),
        other => panic!("unexpected {:?}", other),
    }
    assert!(matches!(m.handle_key(key(KeyCode::Esc)), Action::PopModal));
    assert!(matches!(m.handle_key(key(KeyCode::Char('x'))), Action::NoAction));
    assert_eq!(m.selected, 1);
}

#[test]
fn select_empty_and_out_of_range() {
    let mut m = SelectModal::new("Pick", vec![], SelectAction::PickIssueToClose);
    m.handle_key(key(KeyCode::Down));
    assert_eq!(m.selected, 0);
    let mut m = SelectModal::new("Pick", vec!["a".to_string(), "b".to_string()], SelectAction::MoveBlockerDest(4));
    m.selected = 7;
    m.handle_key(key(KeyCode::Down));
    assert_eq!(m.selected, 1);
    m.selected = 12;
    match m.handle_key(key(KeyCode::Enter)) {
        Action::SubmitInput(s) => assert_eq!(s, "12"),
        other => panic!("unexpected {:?}", other),
    }
}
