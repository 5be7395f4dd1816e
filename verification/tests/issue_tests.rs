use jm_core::date::Date;
use jm_core::issue::{Issue, IssueFile};
use jm_core::status::IssueStatus;

fn d(y: i32, m: u32, day: u32) -> Date {
    Date::from_ymd_opt(y, m, day).unwrap()
}

fn make_full_issue_file() -> IssueFile {
    IssueFile {
        project_slug: "hmi-framework".to_string(),
        next_id: 4,
        issues: vec![
            Issue {
                id: 1,
                title: "Implement focus ring on NavBar".to_string(),
                status: IssueStatus::Todo,
                parent_id: None,
                created: d(2026, 3, 15),
                closed: None,
                notes: String::new(),
                reference: String::new(),
            },
            Issue {
                id: 2,
                title: "Write CSS for :focus states".to_string(),
                status: IssueStatus::Active,
                parent_id: Some(1),
                created: d(2026, 3, 16),
                closed: None,
                notes: String::new(),
                reference: String::new(),
            },
            Issue {
                id: 3,
                title: "Fix crash on startup".to_string(),
                status: IssueStatus::Done,
                parent_id: None,
                created: d(2026, 3, 10),
                closed: Some(d(2026, 3, 17)),
                notes: "was a null pointer in init sequence".to_string(),
                reference: "JIRA-1234".to_string(),
            },
        ],
    }
}

fn simple(id: u32, title: &str, parent: Option<u32>) -> Issue {
    Issue {
        id,
        title: title.to_string(),
        status: IssueStatus::Todo,
        parent_id: parent,
        created: d(2026, 3, 18),
        closed: None,
        notes: String::new(),
        reference: String::new(),
    }
}

#[test]
fn issue_test_full_round_trip() {
    let original = make_full_issue_file();
    let md = original.to_markdown();
    let restored = IssueFile::from_markdown(&md).unwrap();

    assert_eq!(restored.project_slug, original.project_slug);
    assert_eq!(restored.next_id, original.next_id);
    assert_eq!(restored.issues.len(), original.issues.len());

    for (orig, rest) in original.issues.iter().zip(restored.issues.iter()) {
        assert_eq!(rest.id, orig.id);
        assert_eq!(rest.title, orig.title);
        assert_eq!(rest.status, orig.status);
        assert_eq!(rest.parent_id, orig.parent_id);
        assert_eq!(rest.created, orig.created);
        assert_eq!(rest.closed, orig.closed);
        assert_eq!(rest.notes, orig.notes);
        assert_eq!(rest.reference, orig.reference);
    }
}

#[test]
fn issue_test_double_round_trip_stable() {
    let original = make_full_issue_file();
    let md1 = original.to_markdown();
    let restored = IssueFile::from_markdown(&md1).unwrap();
    let md2 = restored.to_markdown();
    assert_eq!(md1, md2);
}

#[test]
fn test_minimal_issue() {
    let issue_file = IssueFile {
        project_slug: "test".to_string(),
        next_id: 2,
        issues: vec![simple(1, "Simple task", None)],
    };
    let md = issue_file.to_markdown();
    let restored = IssueFile::from_markdown(&md).unwrap();
    assert_eq!(restored.issues.len(), 1);
    let i = &restored.issues[0];
    assert_eq!(i.id, 1);
    assert_eq!(i.title, "Simple task");
    assert_eq!(i.status, IssueStatus::Todo);
    assert!(i.parent_id.is_none());
    assert!(i.closed.is_none());
    assert!(i.notes.is_empty());
    assert!(i.reference.is_empty());
}

#[test]
fn test_empty_issue_file() {
    let issue_file = IssueFile::new("empty-project");
    let md = issue_file.to_markdown();
    let restored = IssueFile::from_markdown(&md).unwrap();
    assert_eq!(restored.project_slug, "empty-project");
    assert_eq!(restored.next_id, 1);
    assert!(restored.issues.is_empty());
}

#[test]
fn test_parent_child_hierarchy() {
    let issue_file = IssueFile {
        project_slug: "test".to_string(),
        next_id: 5,
        issues: vec![
            simple(1, "Parent A", None),
            simple(2, "Child A.1", Some(1)),
            simple(3, "Child A.2", Some(1)),
            simple(4, "Parent B", None),
        ],
    };
    let cm = issue_file.children_map();
    let top = cm.get(&None).unwrap();
    assert_eq!(top.len(), 2);
    assert_eq!(top[0].id, 1);
    assert_eq!(top[1].id, 4);
    let children = cm.get(&Some(1)).unwrap();
    assert_eq!(children.len(), 2);
    assert_eq!(children[0].id, 2);
    assert_eq!(children[1].id, 3);
    assert!(!cm.contains_key(&Some(4)));
    assert_eq!(cm.len(), 2);
}

#[test]
fn test_omits_default_fields() {
    let issue_file = IssueFile {
        project_slug: "test".to_string(),
        next_id: 2,
        issues: vec![simple(1, "Top level", None)],
    };
    let md = issue_file.to_markdown();
    assert!(!md.contains("parent:"));
    assert!(!md.contains("notes:"));
    assert!(!md.contains("ref:"));
    assert!(!md.contains("closed:"));
}

#[test]
fn issue_markdown_exact_text() {
    let f = IssueFile {
        project_slug: "p".to_string(),
        next_id: 3,
        issues: vec![simple(1, "A", None), simple(2, "B", Some(1))],
    };
    assert_eq!(
        f.to_markdown(),
        "---\nproject: p\nnext_id: 3\n---\n\n## #1 A\nstatus: todo\ncreated: 2026-03-18\n\n## #2 B\nstatus: todo\nparent: 1\ncreated: 2026-03-18\n"
    );
}

#[test]
fn issue_parse_unclosed_frontmatter_is_error_and_bad_status_is_todo() {
    assert_eq!(
        IssueFile::from_markdown("---\nproject: p\n").unwrap_err(),
        "no closing --- in frontmatter"
    );
    let plain = IssueFile::from_markdown("no frontmatter").unwrap();
    assert_eq!(plain.next_id, 1);
    assert!(plain.project_slug.is_empty() && plain.issues.is_empty());
    let bad = "---\nproject: p\nnext_id: 2\n---\n\n## #1 A\nstatus: nope\ncreated: 2026-03-18\n";
    assert_eq!(IssueFile::from_markdown(bad).unwrap().issues[0].status, IssueStatus::Todo);
}

#[test]
fn issue_parse_on_given_day_uses_it_for_missing_created() {
    let md = "---\nproject: p\nnext_id: 2\n---\n\n## #1 A\nstatus: active\n";
    let f = IssueFile::from_markdown_on(md, d(2030, 1, 2)).unwrap();
    assert_eq!(f.issues[0].created, d(2030, 1, 2));
    assert_eq!(f.issues[0].status, IssueStatus::Active);
}

#[test]
fn issue_dates_outside_four_digit_years_round_trip() {
    let mut a = simple(1, "Far future", None);
    a.created = Date { year: 12345, month: 6, day: 7 };
    a.closed = Some(Date { year: -44, month: 3, day: 15 });
    let mut b = simple(2, "Year zero", None);
    b.created = Date { year: 0, month: 2, day: 29 };
    let f = IssueFile { project_slug: "far".to_string(), next_id: 3, issues: vec![a, b] };
    let md = f.to_markdown();
    assert!(md.contains("+12345-06-07"));
    assert!(md.contains("-0044-03-15"));
    let back = IssueFile::from_markdown(&md).unwrap();
    assert_eq!(back.issues[0].created, Date { year: 12345, month: 6, day: 7 });
    assert_eq!(back.issues[0].closed, Some(Date { year: -44, month: 3, day: 15 }));
    assert_eq!(back.issues[1].created, Date { year: 0, month: 2, day: 29 });
    assert_eq!(back.to_markdown(), md);
}
