use jm_core::events::{Focus, ScreenId};
use jm_core::events::{KeyCode, KeyPress};
use jm_core::plugins::{AboutPlugin, PluginAction, JM_VERSION};

#[test]
fn plugin_action_enum_derives() {
    let a = PluginAction::NoAction;
    let b = a.clone();
    assert_eq!(a, b);

    let toast = PluginAction::Toast("hello".to_string());
    assert_ne!(toast, PluginAction::Back);

    // Debug should not panic
    let _ = format!("{:?}", PluginAction::Back);
}

#[test]
fn about_plugin_shows_version() {
    let p = AboutPlugin::new();
    assert_eq!(p.version(), JM_VERSION);
    assert_eq!(AboutPlugin::default().version(), JM_VERSION);
}

#[test]
fn screen_and_focus_compare() {
    assert_eq!(ScreenId::ProjectView("a".to_string()), ScreenId::ProjectView("a".to_string()));
    assert_ne!(ScreenId::Switch(None), ScreenId::Switch(Some("x".to_string())));
    assert_eq!(Focus::Sidebar(2), Focus::Sidebar(2));
}

#[test]
fn about_plugin_name_timer_and_hints() {
    let p = AboutPlugin::new();
    assert_eq!(p.name(), "about");
    assert!(!p.needs_timer());
    assert_eq!(p.key_hints(), vec![("Esc", "back"), ("q", "back")]);
}

#[test]
fn about_plugin_keys() {
    let mut p = AboutPlugin::new();
    assert_eq!(p.handle_key(KeyPress { code: KeyCode::Esc, ctrl: false }), PluginAction::Back);
    assert_eq!(p.handle_key(KeyPress { code: KeyCode::Char('q'), ctrl: false }), PluginAction::Back);
    assert_eq!(p.handle_key(KeyPress { code: KeyCode::Char('x'), ctrl: false }), PluginAction::NoAction);
    assert_eq!(p.handle_key(KeyPress { code: KeyCode::Enter, ctrl: false }), PluginAction::NoAction);
    assert_eq!(p.version(), JM_VERSION);
}
