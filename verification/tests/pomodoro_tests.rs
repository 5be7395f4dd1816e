use jm_core::pomodoro::{format_time, PomodoroPlugin, PomodoroState};

const SEC: u64 = 1_000_000_000;

#[test]
fn pomodoro_starts_idle_and_runs_work() {
    let mut p = PomodoroPlugin::new(25, 5, 15, 4);
    assert_eq!(p.state, PomodoroState::Idle);
    assert_eq!(p.remaining_secs, 1500);
    assert!(p.on_key(Some(' '), 0));
    assert_eq!(p.state, PomodoroState::Work);
    assert_eq!(p.last_tick, None);
    assert!(p.on_tick(0).is_empty());
    assert_eq!(p.last_tick, Some(0));
    assert!(p.on_tick(SEC / 2).is_empty());
    assert_eq!(p.remaining_secs, 1500);
    assert_eq!(p.last_tick, Some(SEC / 2));
    assert!(p.on_tick(SEC / 2 + 10 * SEC).is_empty());
    assert_eq!(p.remaining_secs, 1490);
}

#[test]
fn pomodoro_work_end_notifies_and_breaks() {
    let mut p = PomodoroPlugin::new(1, 1, 2, 3);
    p.on_key(Some(' '), 0);
    p.on_tick(0);
    let notes = p.on_tick(100 * SEC);
    assert_eq!(
        notes,
        vec![
            "🍅 Work session complete! Time for a break.".to_string(),
            "Short break — stretch and breathe.".to_string()
        ]
    );
    assert_eq!(p.session_count, 1);
    assert_eq!(p.state, PomodoroState::ShortBreak);
    assert_eq!(p.remaining_secs, 60);
    p.on_tick(200 * SEC);
    let notes = p.on_tick(300 * SEC);
    assert_eq!(notes[0], "☕ Break over — back to work!");
    assert_eq!(notes[1], "Work session 2 started. Focus!");
    p.on_tick(400 * SEC);
    let notes = p.on_tick(500 * SEC);
    assert_eq!(p.state, PomodoroState::LongBreak);
    assert_eq!(notes[1], "Long break — great work! Recharge.");
    assert_eq!(p.session_count, 2);
    assert_eq!(p.remaining_secs, 120);
}

#[test]
fn pomodoro_long_break_after_third_session_by_default() {
    let mut p = PomodoroPlugin::new(1, 1, 1, 4);
    p.on_key(Some(' '), 0);
    let mut t = 0;
    let mut states = vec![];
    for _ in 0..5 {
        p.on_tick(t);
        t += 100 * SEC;
        p.on_tick(t);
        states.push(format!("{:?}", p.state));
    }
    assert_eq!(states[0], "ShortBreak");
    assert_eq!(states[4], "LongBreak");
    t += 1;
    p.on_tick(t);
    let notes = p.on_tick(t + 100 * SEC);
    assert_eq!(notes, vec!["🎉 Long break complete. Resetting Pomodoro.", "Pomodoro cycle complete. Well done!"]);
    assert_eq!(p.state, PomodoroState::Idle);
}

#[test]
fn pomodoro_keys() {
    let mut p = PomodoroPlugin::new(25, 5, 15, 4);
    p.on_key(Some(' '), 0);
    p.remaining_secs = 1000;
    assert!(p.on_key(Some(' '), 5));
    assert_eq!(p.state, PomodoroState::Paused(Box::new(PomodoroState::Work)));
    assert!(p.on_key(Some(' '), 7));
    assert_eq!(p.state, PomodoroState::Work);
    assert_eq!(p.remaining_secs, 1000);
    assert_eq!(p.last_tick, Some(7));
    assert!(p.on_key(Some('+'), 8));
    assert_eq!(p.remaining_secs, 1300);
    assert!(p.on_key(Some('_'), 8));
    assert_eq!(p.remaining_secs, 1000);
    p.remaining_secs = 320;
    p.on_key(Some('-'), 8);
    assert_eq!(p.remaining_secs, 60);
    p.on_key(Some('r'), 8);
    assert_eq!(p.remaining_secs, 1500);
    p.session_count = 3;
    assert!(p.on_key(Some('R'), 9));
    assert_eq!(p.state, PomodoroState::Idle);
    assert_eq!((p.session_count, p.remaining_secs), (0, 1500));
    assert!(!p.on_key(Some('x'), 9));
    assert!(!p.on_key(None, 9));
}

#[test]
fn pomodoro_status_lines() {
    let mut p = PomodoroPlugin::new(25, 5, 15, 4);
    assert_eq!(
        p.status(),
        ("IDLE".to_string(), "Ready (25:00)".to_string(), "○○○○".to_string(), "Spc:start".to_string())
    );
    p.on_key(Some(' '), 0);
    p.session_count = 5;
    p.remaining_secs = 61;
    let s = p.status();
    assert_eq!(s.0, "WORK 6/4");
    assert_eq!(s.1, "01:01");
    assert_eq!(s.2, "●○○○");
    assert_eq!(s.3, "Spc:pause");
    p.on_key(Some(' '), 1);
    assert_eq!(p.status().0, "PAUSED (WORK)");
    assert_eq!(format_time(3599), "59:59");
}

#[test]
fn pomodoro_pause_resume_keeps_time_and_count() {
    // Settings that no period could start with: pausing and resuming still work.
    let mut p = PomodoroPlugin::new(25, 5, 15, 0);
    p.state = PomodoroState::ShortBreak;
    p.remaining_secs = 123;
    p.session_count = u32::MAX;
    assert!(p.on_key(Some(' '), 10));
    assert_eq!(p.state, PomodoroState::Paused(Box::new(PomodoroState::ShortBreak)));
    assert!(p.on_key(Some(' '), 20));
    assert_eq!(p.state, PomodoroState::ShortBreak);
    assert_eq!(p.remaining_secs, 123);
    assert_eq!(p.session_count, u32::MAX);
}
