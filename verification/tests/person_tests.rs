use jm_core::date::Date;
use jm_core::person::{PeopleFile, PendingItem, Person};
use jm_core::project_md::extract_mentions;

fn d(y: i32, m: u32, day: u32) -> Date {
    Date::from_ymd_opt(y, m, day).unwrap()
}

fn make_full_people() -> PeopleFile {
    PeopleFile {
        people: vec![
            Person {
                handle: "@carol".to_string(),
                role: "Display Systems Lead".to_string(),
                projects: vec!["HMI Framework".to_string()],
                pending: vec![PendingItem {
                    description: "spec clarification".to_string(),
                    since: Some(d(2026, 3, 14)),
                    project: None,
                }],
            },
            Person {
                handle: "@bob".to_string(),
                role: "Test Infra approver".to_string(),
                projects: vec!["Test Infra".to_string()],
                pending: vec![PendingItem {
                    description: "PR re-review".to_string(),
                    since: None,
                    project: None,
                }],
            },
        ],
    }
}

#[test]
fn person_test_full_round_trip() {
    let original = make_full_people();
    let md = original.to_markdown();
    let restored = PeopleFile::from_markdown(&md);

    assert_eq!(restored.people.len(), original.people.len());
    for (orig, rest) in original.people.iter().zip(restored.people.iter()) {
        assert_eq!(rest.handle, orig.handle);
        assert_eq!(rest.role, orig.role);
        assert_eq!(rest.projects, orig.projects);
        assert_eq!(rest.pending.len(), orig.pending.len());
        for (oi, ri) in orig.pending.iter().zip(rest.pending.iter()) {
            assert_eq!(ri.description, oi.description);
            assert_eq!(ri.since, oi.since);
            assert_eq!(ri.project, oi.project);
        }
    }
}

#[test]
fn person_test_double_round_trip_stable() {
    let original = make_full_people();
    let md1 = original.to_markdown();
    let restored = PeopleFile::from_markdown(&md1);
    let md2 = restored.to_markdown();
    assert_eq!(md1, md2);
}

#[test]
fn test_empty_people_file() {
    let pf = PeopleFile::new();
    let md = pf.to_markdown();
    let restored = PeopleFile::from_markdown(&md);
    assert!(restored.people.is_empty());
}

#[test]
fn test_person_no_pending() {
    let pf = PeopleFile {
        people: vec![Person {
            handle: "@alice".to_string(),
            role: "Manager".to_string(),
            projects: vec!["Project X".to_string(), "Project Y".to_string()],
            pending: Vec::new(),
        }],
    };
    let md = pf.to_markdown();
    assert!(!md.contains("Pending"));
    let restored = PeopleFile::from_markdown(&md);
    assert_eq!(restored.people[0].handle, "@alice");
    assert_eq!(restored.people[0].projects, vec!["Project X", "Project Y"]);
    assert!(restored.people[0].pending.is_empty());
}

#[test]
fn test_person_no_role_no_projects() {
    let pf = PeopleFile {
        people: vec![Person {
            handle: "@eve".to_string(),
            role: String::new(),
            projects: Vec::new(),
            pending: vec![PendingItem {
                description: "feedback".to_string(),
                since: None,
                project: None,
            }],
        }],
    };
    let md = pf.to_markdown();
    let restored = PeopleFile::from_markdown(&md);
    assert_eq!(restored.people[0].handle, "@eve");
    assert_eq!(restored.people[0].role, "");
    assert!(restored.people[0].projects.is_empty());
    assert_eq!(restored.people[0].pending[0].description, "feedback");
}

#[test]
fn test_pending_with_date_and_project() {
    let pf = PeopleFile {
        people: vec![Person {
            handle: "@frank".to_string(),
            role: String::new(),
            projects: Vec::new(),
            pending: vec![PendingItem {
                description: "design review".to_string(),
                since: Some(d(2026, 3, 10)),
                project: Some("HMI Framework".to_string()),
            }],
        }],
    };
    let md = pf.to_markdown();
    assert!(md.contains("(asked 2026-03-10)"));
    assert!(md.contains("[HMI Framework]"));
    let restored = PeopleFile::from_markdown(&md);
    let item = &restored.people[0].pending[0];
    assert_eq!(item.description, "design review");
    assert_eq!(item.since, Some(d(2026, 3, 10)));
    assert_eq!(item.project, Some("HMI Framework".to_string()));
}

#[test]
fn test_multiple_pending_items() {
    let pf = PeopleFile {
        people: vec![Person {
            handle: "@carol".to_string(),
            role: String::new(),
            projects: Vec::new(),
            pending: vec![
                PendingItem {
                    description: "item one".to_string(),
                    since: Some(d(2026, 3, 1)),
                    project: None,
                },
                PendingItem {
                    description: "item two".to_string(),
                    since: None,
                    project: None,
                },
            ],
        }],
    };
    let md = pf.to_markdown();
    let restored = PeopleFile::from_markdown(&md);
    assert_eq!(restored.people[0].pending.len(), 2);
    assert_eq!(restored.people[0].pending[0].description, "item one");
    assert_eq!(restored.people[0].pending[0].since, Some(d(2026, 3, 1)));
    assert_eq!(restored.people[0].pending[1].description, "item two");
}

#[test]
fn person_new_is_empty() {
    let p = Person::new("@x");
    assert_eq!(p.handle, "@x");
    assert!(p.role.is_empty() && p.projects.is_empty() && p.pending.is_empty());
}

#[test]
fn mentions_in_text() {
    assert_eq!(extract_mentions("ping @alice and @bob-2."), vec!["@alice", "@bob-2"]);
    assert_eq!(extract_mentions("mail a@b.c"), vec!["@b"]);
    assert_eq!(extract_mentions("@ alone, @@x"), vec!["@x"]);
    assert_eq!(extract_mentions("@josé met @Ana_B"), vec!["@josé", "@Ana_B"]);
    assert!(extract_mentions("no handles here").is_empty());
}
