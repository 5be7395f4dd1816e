use jm_core::date::Date;
use jm_core::issue::{Issue, IssueFile};
use jm_core::select::{chosen_row_of, cycle_chosen_issue, cycled_message, open_issue_ids, top_issue_ids};
use jm_core::status::IssueStatus;

fn issue(id: u32, status: IssueStatus, parent: Option<u32>) -> Issue {
    Issue {
        id,
        title: format!("Issue {id}"),
        status,
        parent_id: parent,
        created: Date { year: 2026, month: 3, day: 1 },
        closed: None,
        notes: String::new(),
        reference: String::new(),
    }
}

fn file() -> IssueFile {
    IssueFile {
        project_slug: "p".to_string(),
        next_id: 5,
        issues: vec![
            issue(1, IssueStatus::Done, None),
            issue(2, IssueStatus::Todo, None),
            issue(3, IssueStatus::Blocked, Some(2)),
            issue(4, IssueStatus::Active, None),
        ],
    }
}

#[test]
fn select_rows_and_lists() {
    assert_eq!(chosen_row_of(" 2 "), Some(2));
    assert_eq!(chosen_row_of("x"), None);
    assert_eq!(chosen_row_of(""), None);
    let f = file();
    assert_eq!(open_issue_ids(&f), vec![2, 3, 4]);
    assert_eq!(top_issue_ids(&f), vec![1, 2, 4]);
}

#[test]
fn select_cycle_issue() {
    let today = Date { year: 2026, month: 3, day: 20 };
    let mut f = file();
    assert_eq!(cycle_chosen_issue(&mut f, 1, false, today), Some((3, IssueStatus::Done)));
    assert_eq!(f.issues[2].status, IssueStatus::Done);
    assert_eq!(f.issues[2].closed, Some(today));
    assert_eq!(cycle_chosen_issue(&mut f, 0, true, today), Some((2, IssueStatus::Done)));
    let mut g = file();
    assert_eq!(cycle_chosen_issue(&mut g, 2, true, today), Some((4, IssueStatus::Todo)));
    assert_eq!(g.issues[3].closed, None);
    assert_eq!(cycle_chosen_issue(&mut g, 9, false, today), None);
    assert_eq!(cycled_message(3, IssueStatus::Done), "#3 -> done");
}

use jm_core::modals::SelectAction;
use jm_core::project::Project;
use jm_core::select::{kept_issues, move_blocker, move_destinations, select_effect, SelectContext, SelectEffect};

fn select_ctx() -> SelectContext {
    SelectContext {
        indices: vec![3, 0],
        unblock_slug: "alpha".to_string(),
        move_slug: "beta".to_string(),
        dashboard: vec!["alpha".to_string(), "beta".to_string()],
        targeted: Some("alpha".to_string()),
        issues: file(),
        notes: vec!["first".to_string(), "second".to_string()],
    }
}

#[test]
fn select_effects_route() {
    let c = select_ctx();
    match select_effect(&SelectAction::ChooseBlocker, 0, &c) {
        SelectEffect::ResolveBlocker(s, i) => { assert_eq!(s, "alpha"); assert_eq!(i, 3); }
        other => panic!("unexpected {:?}", other),
    }
    assert!(matches!(select_effect(&SelectAction::ChooseBlocker, 2, &c), SelectEffect::Nothing));
    match select_effect(&SelectAction::MoveBlockerSource, 1, &c) {
        SelectEffect::AskMoveDestination(s, i) => { assert_eq!(s, "beta"); assert_eq!(i, 0); }
        other => panic!("unexpected {:?}", other),
    }
    match select_effect(&SelectAction::MoveBlockerDest(4), 1, &c) {
        SelectEffect::MoveBlocker(s, i, d) => { assert_eq!(s, "beta"); assert_eq!(i, 4); assert_eq!(d, "alpha"); }
        other => panic!("unexpected {:?}", other),
    }
    assert!(matches!(select_effect(&SelectAction::MoveBlockerDest(4), 0, &c), SelectEffect::Nothing));
    match select_effect(&SelectAction::PickParentIssue, 2, &c) {
        SelectEffect::AskSubIssue(id, t) => { assert_eq!(id, 4); assert_eq!(t, "Issue 4"); }
        other => panic!("unexpected {:?}", other),
    }
    match select_effect(&SelectAction::PickIssueToClose, 0, &c) {
        SelectEffect::CloseIssue(s, id) => { assert_eq!(s, "alpha"); assert_eq!(id, 2); }
        other => panic!("unexpected {:?}", other),
    }
    assert!(matches!(select_effect(&SelectAction::PinIssue, 0, &c), SelectEffect::Unpin(_)));
    match select_effect(&SelectAction::PinIssue, 3, &c) {
        SelectEffect::Pin(_, id, t) => { assert_eq!(id, 4); assert_eq!(t, "Issue 4"); }
        other => panic!("unexpected {:?}", other),
    }
    assert!(matches!(select_effect(&SelectAction::PinIssue, 4, &c), SelectEffect::Nothing));
    match select_effect(&SelectAction::NoteToIssue, 1, &c) {
        SelectEffect::IssueFromNote(s, t) => { assert_eq!(s, "alpha"); assert_eq!(t, "second"); }
        other => panic!("unexpected {:?}", other),
    }
    assert!(matches!(select_effect(&SelectAction::PickIssueToCycleReverse, 1, &c), SelectEffect::CycleIssue(_, 1, true)));
    match select_effect(&SelectAction::StopWorkChoice, 1, &c) {
        SelectEffect::Pause(k, m) => { assert_eq!(k, "Lunch"); assert_eq!(m, "Lunch logged."); }
        other => panic!("unexpected {:?}", other),
    }
    assert!(matches!(select_effect(&SelectAction::StopWorkChoice, 2, &c), SelectEffect::AskShipped));
    assert!(matches!(select_effect(&SelectAction::StopWorkChoice, 3, &c), SelectEffect::Nothing));
    let mut none = select_ctx();
    none.targeted = None;
    assert!(matches!(select_effect(&SelectAction::PickIssueToClose, 0, &none), SelectEffect::Nothing));
    assert_eq!(kept_issues(&file(), true).iter().map(|x| x.0).collect::<Vec<_>>(), vec![2, 3, 4]);
}

#[test]
fn select_move_blocker_between_projects() {
    let day = Date { year: 2026, month: 3, day: 20 };
    let mut a = Project::new_on("Alpha", day);
    let mut b = Project::new_on("Beta", day);
    a.add_blocker_on(day, "first");
    a.add_blocker_on(day, "second @sam");
    assert_eq!(move_blocker(&mut a, 5, &mut b), None);
    assert_eq!(a.blockers.len(), 2);
    assert_eq!(move_blocker(&mut a, 1, &mut b), Some("second @sam".to_string()));
    assert_eq!(a.blockers.len(), 1);
    assert_eq!(b.blockers[0].person, Some("@sam".to_string()));
    let ps = vec![("alpha".to_string(), "Alpha".to_string()), ("beta".to_string(), "Beta".to_string()), ("gamma".to_string(), "Gamma".to_string())];
    assert_eq!(move_destinations(&ps, "beta"), vec![(0, "Alpha".to_string()), (2, "Gamma".to_string())]);
}
