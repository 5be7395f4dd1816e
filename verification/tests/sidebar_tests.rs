use jm_core::sidebar::{notifications_index, route_tick, sidebar_kinds, SidebarKind};

#[test]
fn sidebar_kinds_from_config() {
    let enabled = vec!["clock".to_string(), "weather".to_string(), "pomodoro".to_string(), "notifications".to_string()];
    assert_eq!(
        sidebar_kinds(&enabled),
        vec![SidebarKind::Clock, SidebarKind::Pomodoro, SidebarKind::Notifications]
    );
    assert!(sidebar_kinds(&Vec::new()).is_empty());
}

#[test]
fn sidebar_notification_centre() {
    let names = vec!["clock".to_string(), "Notifications".to_string(), "Notifications".to_string()];
    assert_eq!(notifications_index(&names), Some(1));
    assert_eq!(notifications_index(&vec!["clock".to_string()]), None);
}

#[test]
fn sidebar_tick_routing() {
    let timed = vec![true, true, false];
    let msgs = vec![
        vec!["Work session done".to_string()],
        vec!["Reminder: standup".to_string()],
        vec!["ignored".to_string()],
    ];
    let (all, fwd) = route_tick(&timed, &msgs, Some(1));
    assert_eq!(all, vec!["Work session done".to_string(), "Reminder: standup".to_string()]);
    assert_eq!(fwd, vec!["Work session done".to_string()]);
    let (all2, fwd2) = route_tick(&timed, &msgs, None);
    assert_eq!(all2.len(), 2);
    assert_eq!(fwd2.len(), 2);
}
