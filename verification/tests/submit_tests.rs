use jm_core::date::Date;
use jm_core::modals::InputAction;
use jm_core::project::Project;
use jm_core::submit::{edit_project, submit_input, SubmitContext, SubmitEffect};

fn day() -> Date {
    Date { year: 2026, month: 3, day: 20 }
}

#[test]
fn submit_edit_quick_actions() {
    let mut p = Project::new_on("Alpha", day());
    assert_eq!(edit_project(&mut p, &InputAction::QuickNote, "  first note ", day()), Some("Note added.".to_string()));
    assert_eq!(p.log.len(), 1);
    assert_eq!(p.log[0].lines, vec!["first note".to_string()]);
    assert_eq!(edit_project(&mut p, &InputAction::QuickNote, "   ", day()), None);
    assert_eq!(p.log[0].lines.len(), 1);
    assert_eq!(edit_project(&mut p, &InputAction::QuickBlocker, "waiting on @sam", day()), Some("Blocker logged.".to_string()));
    assert_eq!(p.blockers[0].person, Some("@sam".to_string()));
    assert_eq!(p.blockers[0].since, Some(day()));
    assert_eq!(edit_project(&mut p, &InputAction::QuickDecision, "use grids", day()), Some("Decision logged.".to_string()));
    assert_eq!(p.decisions[0].choice, "use grids");
    assert!(p.decisions[0].alternatives.is_empty());
}

#[test]
fn submit_edit_fields() {
    let mut p = Project::new_on("Alpha", day());
    assert_eq!(edit_project(&mut p, &InputAction::EditFocus, " ship it ", day()), Some("Focus updated.".to_string()));
    assert_eq!(p.current_focus, "ship it");
    assert_eq!(edit_project(&mut p, &InputAction::EditTags, "a, b,, c ", day()), Some("Tags updated.".to_string()));
    assert_eq!(p.tags, vec!["a".to_string(), "b".to_string(), "c".to_string()]);
    assert_eq!(edit_project(&mut p, &InputAction::EditTarget, "2026-04-01", day()), Some("Target set to 2026-04-01.".to_string()));
    assert_eq!(p.target, Some(Date { year: 2026, month: 4, day: 1 }));
    assert_eq!(edit_project(&mut p, &InputAction::EditTarget, "soon", day()), Some("Invalid date. Use YYYY-MM-DD format.".to_string()));
    assert_eq!(p.target, Some(Date { year: 2026, month: 4, day: 1 }));
    assert_eq!(edit_project(&mut p, &InputAction::EditTarget, "", day()), Some("Target date cleared.".to_string()));
    assert_eq!(p.target, None);
    assert_eq!(edit_project(&mut p, &InputAction::MeetingNote, "", day()), Some("Meeting: ".to_string()));
    assert!(p.log.is_empty());
    assert_eq!(edit_project(&mut p, &InputAction::MeetingNote, "sync", day()), Some("Meeting: sync".to_string()));
    assert_eq!(p.log[0].lines, vec!["sync".to_string()]);
}

#[test]
fn submit_routes() {
    let ctx = SubmitContext {
        targeted: Some("alpha".to_string()),
        current: None,
        meetings: "meetings".to_string(),
    };
    assert!(matches!(submit_input(&InputAction::AddProject, "  ", &ctx), SubmitEffect::Nothing));
    match submit_input(&InputAction::AddProject, " New One ", &ctx) {
        SubmitEffect::CreateProject(n) => assert_eq!(n, "New One"),
        other => panic!("unexpected {:?}", other),
    }
    match submit_input(&InputAction::QuickNote, "x", &ctx) {
        SubmitEffect::Edit(s) => assert_eq!(s, "alpha"),
        other => panic!("unexpected {:?}", other),
    }
    assert!(matches!(submit_input(&InputAction::EditFocus, "x", &ctx), SubmitEffect::Nothing));
    match submit_input(&InputAction::MeetingNote, "x", &ctx) {
        SubmitEffect::Edit(s) => assert_eq!(s, "meetings"),
        other => panic!("unexpected {:?}", other),
    }
    match submit_input(&InputAction::EodReflectTomorrow("shipped".to_string()), " plan ", &ctx) {
        SubmitEffect::Reflect(a, b) => {
            assert_eq!(a, "shipped");
            assert_eq!(b, "plan");
        }
        other => panic!("unexpected {:?}", other),
    }
    match submit_input(&InputAction::AddSubIssue(7), "child", &ctx) {
        SubmitEffect::CreateIssue(s, t, p) => {
            assert_eq!(s, "alpha");
            assert_eq!(t, "child");
            assert_eq!(p, Some(7));
        }
        other => panic!("unexpected {:?}", other),
    }
    let none = SubmitContext { targeted: None, current: None, meetings: "m".to_string() };
    match submit_input(&InputAction::QuickBlocker, "x", &none) {
        SubmitEffect::Toast(m) => assert_eq!(m, "No project selected."),
        other => panic!("unexpected {:?}", other),
    }
}

#[test]
fn submit_target_rejects_impossible_dates() {
    let mut p = Project::new_on("Alpha", day());
    for bad in ["2026-13-01", "2026-02-30", "2026-00-10", "2025-02-29"] {
        assert_eq!(edit_project(&mut p, &InputAction::EditTarget, bad, day()), Some("Invalid date. Use YYYY-MM-DD format.".to_string()));
        assert_eq!(p.target, None);
    }
    assert_eq!(edit_project(&mut p, &InputAction::EditTarget, "2024-02-29", day()), Some("Target set to 2024-02-29.".to_string()));
}
