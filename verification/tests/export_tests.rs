use chrono::Datelike;
use jm_core::date::Date;
use jm_core::export::{
    focus_cuts_cleanly, generate_dump, generate_dump_on, generate_dump_with_issues_on,
    JournalEntry,
};
use jm_core::issue::{Issue, IssueFile};
use jm_core::project::{Blocker, Project};
use jm_core::status::{IssueStatus, Priority, Status};

fn d(y: i32, m: u32, day: u32) -> Date {
    Date::from_ymd_opt(y, m, day).unwrap()
}

fn entry(time: &str, kind: &str, project: &str) -> JournalEntry {
    JournalEntry { time: time.to_string(), entry_type: kind.to_string(), project: project.to_string() }
}

#[test]
fn test_generate_dump_empty() {
    let dump = generate_dump(&Vec::new(), &Vec::new(), None, None);
    assert!(dump.contains("ACTIVE PROJECTS (0)"));
    assert!(dump.contains("No projects yet"));
    assert!(dump.contains("BLOCKERS (0)"));
    assert!(dump.contains("No open blockers"));
    assert!(dump.contains("ACTIVE: none"));
}

#[test]
fn test_generate_dump_with_project() {
    let projects = vec![Project::new("Test Project")];
    let dump = generate_dump(&projects, &Vec::new(), None, None);
    assert!(dump.contains("ACTIVE PROJECTS (1)"));
    assert!(dump.contains("Test Project"));
}

#[test]
fn test_dump_no_ansi() {
    let dump = generate_dump(&Vec::new(), &Vec::new(), None, None);
    assert!(!dump.contains("\x1b["));
}

#[test]
fn dump_exact_text_on_a_given_day() {
    let mut a = Project::new_on("Zeta", d(2026, 1, 1));
    a.current_focus = "ship it".to_string();
    a.blockers.push(Blocker {
        description: "waiting".to_string(),
        since: Some(d(2026, 3, 10)),
        person: Some("@carol".to_string()),
        ..Default::default()
    });
    a.blockers.push(Blocker { description: "old".to_string(), resolved: true, ..Default::default() });
    let mut b = Project::new_on("Alpha", d(2026, 1, 1));
    b.status = Status::Parked;
    b.priority = Priority::Low;
    let mut c = Project::new_on("Beta", d(2026, 1, 1));
    c.priority = Priority::High;
    let journal = vec![
        entry("09:00", "Started", "Beta"),
        entry("10:00", "Switched", "Zeta"),
        entry("17:00", "Done", ""),
    ];
    let dump = generate_dump_on(
        &vec![a, b, c],
        &journal,
        Some("zeta".to_string()),
        Some("Zeta".to_string()),
        d(2026, 3, 18),
    );
    let expected = [
        "jm -- Job Manager            Wed Mar 18, 2026",
        "",
        "ACTIVE PROJECTS (3)",
        "  Project              Status     Pri    Current Focus",
        "  Beta                 active     high   ",
        "  Zeta                 active     med    ship it",
        "  Alpha                parked     low    ",
        "",
        "BLOCKERS (1)",
        "  Zeta: waiting @carol (8 days)",
        "",
        "TODAY'S LOG",
        "  09:00  Started Beta",
        "  10:00  Switched -> Zeta",
        "  17:00  Done for day",
        "",
        "ACTIVE: Zeta (since 10:00)",
    ]
    .join("\n");
    assert_eq!(dump, expected);
}

#[test]
fn dump_active_slug_without_project_and_negative_days() {
    let mut a = Project::new_on("P", d(2026, 1, 1));
    a.blockers.push(Blocker {
        description: "future".to_string(),
        since: Some(d(2026, 3, 20)),
        ..Default::default()
    });
    let dump = generate_dump_on(&vec![a], &Vec::new(), Some("gone".to_string()), None, d(2026, 3, 18));
    assert!(dump.contains("  P: future (-2 days)"));
    assert!(dump.contains("  No entries yet today"));
    assert!(dump.ends_with("ACTIVE: gone"));
}

fn issue(id: u32, status: IssueStatus, parent: Option<u32>) -> Issue {
    Issue {
        id,
        title: format!("T{id}"),
        status,
        parent_id: parent,
        created: d(2026, 1, 1),
        closed: None,
        notes: String::new(),
        reference: String::new(),
    }
}

#[test]
fn dump_issues_section() {
    let p = Project::new_on("Proj", d(2026, 1, 1));
    let q = Project::new_on("Quiet", d(2026, 1, 1));
    let f = IssueFile {
        project_slug: "proj".to_string(),
        next_id: 5,
        issues: vec![
            issue(1, IssueStatus::Active, None),
            issue(2, IssueStatus::Todo, Some(1)),
            issue(3, IssueStatus::Done, Some(1)),
            issue(4, IssueStatus::Blocked, None),
        ],
    };
    let g = IssueFile { project_slug: "quiet".to_string(), next_id: 1, issues: vec![] };
    let dump = generate_dump_with_issues_on(
        &vec![p, q],
        &Vec::new(),
        None,
        None,
        Some(&vec![f, g]),
        d(2026, 3, 18),
    );
    let expected = "ISSUES (3 open across 1 project)\n  Proj: 3 open, 1 active\n    #1   [active ] T1\n      #2   [todo   ] T2\n    #4   [blocked] T4\n";
    assert!(dump.contains(expected), "{dump}");
    let none = generate_dump_with_issues_on(
        &vec![Project::new_on("Q", d(2026, 1, 1))],
        &Vec::new(),
        None,
        None,
        Some(&vec![IssueFile { project_slug: "q".to_string(), next_id: 1, issues: vec![] }]),
        d(2026, 3, 18),
    );
    assert!(none.contains("ISSUES (0)\n  No open issues\n"));
}

#[test]
fn dump_issue_rows_stop_at_ten() {
    let p = Project::new_on("Many", d(2026, 1, 1));
    let issues: Vec<Issue> = (1..=12).map(|i| issue(i, IssueStatus::Todo, None)).collect();
    let f = IssueFile { project_slug: "many".to_string(), next_id: 13, issues };
    let dump = generate_dump_with_issues_on(&vec![p], &Vec::new(), None, None, Some(&vec![f]), d(2026, 3, 18));
    assert!(dump.contains("ISSUES (12 open across 1 project)"));
    assert!(dump.contains("#10  [todo   ] T10"));
    assert!(!dump.contains("T11"));
}

#[test]
fn focus_cut_at_forty_bytes() {
    let mut p = Project::new_on("F", d(2026, 1, 1));
    p.current_focus = "a".repeat(45);
    let dump = generate_dump_on(&vec![p], &Vec::new(), None, None, d(2026, 3, 18));
    assert!(dump.contains(&format!("  F                    active     med    {}\n", "a".repeat(40))));
    assert!(focus_cuts_cleanly(&"é".repeat(20)));
    assert!(!focus_cuts_cleanly(&format!("a{}", "é".repeat(20))));
    assert!(focus_cuts_cleanly("short"));
}

#[test]
fn day_heading_matches_chrono() {
    for (y, m, day) in [(1970, 1, 1), (2026, 3, 18), (2000, 2, 29), (1969, 12, 31), (1, 1, 1), (2099, 12, 31)] {
        let nd = chrono::NaiveDate::from_ymd_opt(y, m, day).unwrap();
        let want = nd.format("%a %b %d, %Y").to_string();
        let dump = generate_dump_on(&Vec::new(), &Vec::new(), None, None, d(nd.year(), nd.month(), nd.day()));
        let first = dump.lines().next().unwrap().to_string();
        assert!(first.ends_with(&want), "{first} vs {want}");
    }
}
