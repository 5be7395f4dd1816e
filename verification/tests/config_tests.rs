use jm_core::config::{expand_tilde, Config, PluginConfig, ReviewConfig};

#[test]
fn config_defaults() {
    let c = Config::default();
    assert_eq!(c.data_dir, "~/.jm");
    assert_eq!(c.export_path, "~/.jm/screen.txt");
    assert_eq!(c.statuses, vec!["active", "blocked", "pending", "parked", "done"]);
    assert_eq!(c.priorities, vec!["high", "medium", "low"]);
    assert_eq!(c.plugins.enabled, vec!["pomodoro", "notifications", "clock"]);
    assert_eq!(c.plugins.pomodoro.work_minutes, 25);
    assert_eq!(c.plugins.pomodoro.short_break_minutes, 5);
    assert_eq!(c.plugins.pomodoro.long_break_minutes, 15);
    assert_eq!(c.plugins.pomodoro.sessions_before_long, 4);
    assert!(c.plugins.notifications.reminders.is_empty());
    assert_eq!(c.review.morning_start, 6);
    assert_eq!(c.review.morning_end, 11);
    assert!(c.git_paths.is_empty());
    let p = PluginConfig::default();
    assert_eq!(p.enabled.len(), 3);
    let r = ReviewConfig::default();
    assert_eq!((r.morning_start, r.morning_end), (6, 11));
}

#[test]
fn tilde_expansion() {
    let home = Some("/home/u".to_string());
    assert_eq!(expand_tilde("~/.jm", home.clone()), "/home/u/.jm");
    assert_eq!(expand_tilde("~", home.clone()), "/home/u");
    assert_eq!(expand_tilde("/abs/path", home.clone()), "/abs/path");
    assert_eq!(expand_tilde("~user/x", home.clone()), "~user/x");
    assert_eq!(expand_tilde("~/", home.clone()), "/home/u/");
    assert_eq!(expand_tilde("~//etc", home.clone()), "/etc");
    assert_eq!(expand_tilde("~/a", Some("/home/u/".to_string())), "/home/u/a");
    assert_eq!(expand_tilde("~/a", Some(String::new())), "a");
    assert_eq!(expand_tilde("~/.jm", None), "~/.jm");
}

#[test]
fn config_paths_expand() {
    let c = Config::default();
    assert_eq!(c.data_dir(Some("/h".to_string())), "/h/.jm");
    assert_eq!(c.export_path(Some("/h".to_string())), "/h/.jm/screen.txt");
    assert_eq!(c.data_dir(None), "~/.jm");
}
