use jm_core::events::{should_show_idle_reminder, targeted_project_slug, ScreenId};

#[test]
fn idle_reminder_conditions() {
    let d = ScreenId::Dashboard;
    assert!(should_show_idle_reminder(false, &d, 60, false, 8, None));
    assert!(should_show_idle_reminder(false, &d, 600, false, 17, Some(300)));
    assert!(!should_show_idle_reminder(true, &d, 600, false, 10, None));
    assert!(!should_show_idle_reminder(false, &ScreenId::People, 600, false, 10, None));
    assert!(!should_show_idle_reminder(false, &d, 59, false, 10, None));
    assert!(!should_show_idle_reminder(false, &d, 600, true, 10, None));
    assert!(!should_show_idle_reminder(false, &d, 600, false, 7, None));
    assert!(!should_show_idle_reminder(false, &d, 600, false, 18, None));
    assert!(!should_show_idle_reminder(false, &d, 600, false, 10, Some(299)));
}

#[test]
fn targeted_project() {
    let slugs = vec!["alpha".to_string(), "beta".to_string()];
    assert_eq!(targeted_project_slug(&ScreenId::ProjectView("gamma".into()), &slugs, 0).as_deref(), Some("gamma"));
    assert_eq!(targeted_project_slug(&ScreenId::Dashboard, &slugs, 1).as_deref(), Some("beta"));
    assert_eq!(targeted_project_slug(&ScreenId::Dashboard, &slugs, 2), None);
    assert_eq!(targeted_project_slug(&ScreenId::People, &slugs, 0), None);
}
