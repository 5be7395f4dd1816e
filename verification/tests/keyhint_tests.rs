use jm_core::events::{Focus, ScreenId};
use jm_core::keyhints::get_hints;

#[test]
fn modal_hides_everything_else() {
    let h = get_hints(&ScreenId::Dashboard, &Focus::Sidebar(0), true, true, None);
    assert_eq!(h, vec![("Enter", "submit"), ("Esc", "cancel")]);
}

#[test]
fn sidebar_focus_shows_plugin_controls() {
    let h = get_hints(&ScreenId::People, &Focus::Sidebar(1), false, false, None);
    assert_eq!(h.len(), 5);
    assert_eq!(h[0], ("Tab", "back"));
    assert_eq!(h[4], ("R", "reset all"));
}

#[test]
fn screen_hints() {
    let h = get_hints(&ScreenId::Dashboard, &Focus::Main, false, false, None);
    assert_eq!(h.len(), 10);
    assert_eq!(h[8], ("W", "weekly"));
    let k = get_hints(&ScreenId::Dashboard, &Focus::Main, false, true, None);
    assert_eq!(k[3], ("K", "list view"));
    let p = get_hints(&ScreenId::ProjectView("x".to_string()), &Focus::Modal, false, false, None);
    assert_eq!(p[6], ("N", "note→issue"));
    assert_eq!(get_hints(&ScreenId::Weekly, &Focus::Main, false, false, None).len(), 3);
    assert_eq!(get_hints(&ScreenId::IssueBoard, &Focus::Main, false, false, None)[6], ("D", "done col"));
}

#[test]
fn plugin_screen_hints() {
    let own = vec![("r", "refresh"), ("Esc", "back")];
    assert_eq!(get_hints(&ScreenId::Plugin("jira".to_string()), &Focus::Main, false, false, Some(own.clone())), own);
    assert_eq!(get_hints(&ScreenId::Plugin("jira".to_string()), &Focus::Main, false, false, None), vec![("Esc", "back")]);
}
