use jm_core::date::Date;
use jm_core::issue::{Issue, IssueFile};
use jm_core::listing::list_issues;
use jm_core::status::IssueStatus;

fn issue(id: u32, title: &str, status: IssueStatus, parent: Option<u32>) -> Issue {
    Issue {
        id,
        title: title.to_string(),
        status,
        parent_id: parent,
        created: Date::from_ymd_opt(2026, 3, 1).unwrap(),
        closed: None,
        notes: String::new(),
        reference: String::new(),
    }
}

fn files() -> Vec<(String, IssueFile)> {
    let a = IssueFile {
        project_slug: "alpha".into(),
        next_id: 4,
        issues: vec![
            issue(1, "Top one", IssueStatus::Todo, None),
            issue(2, "Child", IssueStatus::Active, Some(1)),
            issue(3, "Top two", IssueStatus::Done, None),
        ],
    };
    let b = IssueFile { project_slug: "beta".into(), next_id: 1, issues: vec![] };
    let c = IssueFile {
        project_slug: "gamma".into(),
        next_id: 1200,
        issues: vec![issue(1100, "Big id", IssueStatus::Blocked, None)],
    };
    vec![("alpha".into(), a), ("beta".into(), b), ("gamma".into(), c)]
}

#[test]
fn one_project_listing() {
    let f = vec![files().remove(0)];
    assert_eq!(
        list_issues(&f, None, false),
        vec!["#1   todo     Top one", "  #2   active   Child", "#3   done     Top two"]
    );
    assert_eq!(list_issues(&f, Some(IssueStatus::Active), false), vec!["  #2   active   Child"]);
    assert_eq!(list_issues(&f, Some(IssueStatus::Blocked), false), vec!["No issues found."]);
}

#[test]
fn all_projects_listing() {
    assert_eq!(
        list_issues(&files(), None, true),
        vec![
            "alpha:",
            "  #1   todo     Top one",
            "    #2   active   Child",
            "  #3   done     Top two",
            "gamma:",
            "  #1100 blocked  Big id",
        ]
    );
    assert_eq!(list_issues(&files(), Some(IssueStatus::Done), true), vec!["alpha:", "  #3   done     Top two"]);
    assert_eq!(list_issues(&Vec::new(), None, true), vec!["No issues found."]);
}

use jm_core::export::JournalEntry;
use jm_core::listing::status_line;
use jm_core::project::{Blocker, Project};
use jm_core::status::{Priority, Status};

fn entry(time: &str, kind: &str, project: &str) -> JournalEntry {
    JournalEntry { time: time.into(), entry_type: kind.into(), project: project.into() }
}

#[test]
fn status_line_parts() {
    let day = Date::from_ymd_opt(2026, 3, 1).unwrap();
    let blocker = |resolved: bool| Blocker {
        description: "x".into(),
        resolved,
        since: None,
        resolved_date: None,
        person: None,
    };
    let mut p = Project {
        name: "Alpha".into(),
        slug: "alpha".into(),
        status: Status::Active,
        priority: Priority::Medium,
        tags: vec![],
        created: day,
        target: None,
        active_issue: None,
        current_focus: String::new(),
        blockers: vec![],
        decisions: vec![],
        log: vec![],
    };
    assert_eq!(status_line(&p, &vec![]), "Active: Alpha");
    p.blockers = vec![blocker(false), blocker(true), blocker(false)];
    p.current_focus = "shipping".into();
    let journal = vec![
        entry("09:00", "Started", "Alpha"),
        entry("10:30", "Switched", "Alpha project"),
        entry("11:00", "Note", "Alpha"),
        entry("12:00", "Started", "Beta"),
    ];
    assert_eq!(status_line(&p, &journal), "Active: Alpha (since 10:30), 2 blockers -- shipping");
}
