use jm_core::date::Date;
use jm_core::project::{Blocker, Decision, LogEntry, Project};
use jm_core::status::{Priority, Status};

fn d(y: i32, m: u32, day: u32) -> Date {
    Date::from_ymd_opt(y, m, day).unwrap()
}

fn make_full_project() -> Project {
    Project {
        name: "HMI Framework".to_string(),
        slug: "hmi-framework".to_string(),
        status: Status::Active,
        priority: Priority::High,
        tags: vec!["infotainment".to_string(), "rendering".to_string()],
        created: d(2026, 1, 15),
        target: Some(d(2026, 6, 30)),
        active_issue: None,
        current_focus: "debugging render loop".to_string(),
        blockers: vec![
            Blocker {
                description: "waiting on display spec".to_string(),
                resolved: false,
                since: Some(d(2026, 3, 10)),
                resolved_date: None,
                person: Some("@carol".to_string()),
            },
            Blocker {
                description: "GPU driver issue".to_string(),
                resolved: true,
                since: None,
                resolved_date: Some(d(2026, 3, 14)),
                person: None,
            },
        ],
        decisions: vec![
            Decision {
                date: d(2026, 2, 1),
                choice: "Use Vulkan over OpenGL".to_string(),
                alternatives: vec!["OpenGL ES".to_string(), "DirectFB".to_string()],
            },
            Decision {
                date: d(2026, 3, 1),
                choice: "Keep custom compositor".to_string(),
                alternatives: Vec::new(),
            },
        ],
        log: vec![
            LogEntry {
                date: d(2026, 3, 14),
                lines: vec![
                    "Fixed GPU driver init sequence".to_string(),
                    "Ran benchmarks".to_string(),
                ],
            },
            LogEntry {
                date: d(2026, 3, 15),
                lines: vec!["Started render loop debugging".to_string()],
            },
        ],
    }
}

#[test]
fn project_test_full_round_trip() {
    let original = make_full_project();
    let md = original.to_markdown();
    let restored = Project::from_markdown(&md).unwrap();

    assert_eq!(restored.name, original.name);
    assert_eq!(restored.slug, original.slug);
    assert_eq!(restored.status, original.status);
    assert_eq!(restored.priority, original.priority);
    assert_eq!(restored.tags, original.tags);
    assert_eq!(restored.created, original.created);
    assert_eq!(restored.target, original.target);
    assert_eq!(restored.current_focus, original.current_focus);

    assert_eq!(restored.blockers.len(), original.blockers.len());
    for (orig, rest) in original.blockers.iter().zip(restored.blockers.iter()) {
        assert_eq!(rest.description, orig.description);
        assert_eq!(rest.resolved, orig.resolved);
        assert_eq!(rest.since, orig.since);
        assert_eq!(rest.resolved_date, orig.resolved_date);
        assert_eq!(rest.person, orig.person);
    }

    assert_eq!(restored.decisions.len(), original.decisions.len());
    for (orig, rest) in original.decisions.iter().zip(restored.decisions.iter()) {
        assert_eq!(rest.date, orig.date);
        assert_eq!(rest.choice, orig.choice);
        assert_eq!(rest.alternatives, orig.alternatives);
    }

    assert_eq!(restored.log.len(), original.log.len());
    for (orig, rest) in original.log.iter().zip(restored.log.iter()) {
        assert_eq!(rest.date, orig.date);
        assert_eq!(rest.lines, orig.lines);
    }
}

#[test]
fn project_test_double_round_trip_stable() {
    let original = make_full_project();
    let md1 = original.to_markdown();
    let restored = Project::from_markdown(&md1).unwrap();
    let md2 = restored.to_markdown();
    assert_eq!(md1, md2);
}

#[test]
fn test_minimal_project() {
    let original = Project {
        name: "Quick Task".to_string(),
        slug: "quick-task".to_string(),
        created: d(2026, 3, 16),
        ..Project::new("Quick Task")
    };
    let md = original.to_markdown();
    let restored = Project::from_markdown(&md).unwrap();

    assert_eq!(restored.name, "Quick Task");
    assert_eq!(restored.slug, "quick-task");
    assert_eq!(restored.status, Status::Active);
    assert_eq!(restored.priority, Priority::Medium);
    assert_eq!(restored.tags, Vec::<String>::new());
    assert_eq!(restored.target, None);
    assert_eq!(restored.current_focus, "");
    assert!(restored.blockers.is_empty());
    assert!(restored.decisions.is_empty());
    assert!(restored.log.is_empty());
}

#[test]
fn test_project_no_target() {
    let p = Project { created: d(2026, 3, 16), ..Project::new("No Target") };
    let md = p.to_markdown();
    assert!(!md.contains("target"));
    let restored = Project::from_markdown(&md).unwrap();
    assert_eq!(restored.target, None);
}

#[test]
fn test_project_no_blockers() {
    let mut p = Project { created: d(2026, 3, 16), ..Project::new("Clean Project") };
    p.decisions.push(Decision {
        date: d(2026, 3, 16),
        choice: "Go with plan A".to_string(),
        alternatives: Vec::new(),
    });
    let md = p.to_markdown();
    assert!(!md.contains("## Blockers"));
    let restored = Project::from_markdown(&md).unwrap();
    assert!(restored.blockers.is_empty());
    assert_eq!(restored.decisions.len(), 1);
}

#[test]
fn test_unresolved_blocker_with_since_and_mention() {
    let mut p = Project { created: d(2026, 3, 16), ..Project::new("Test") };
    p.blockers.push(Blocker {
        description: "need API docs".to_string(),
        resolved: false,
        since: Some(d(2026, 3, 10)),
        person: Some("@dave".to_string()),
        ..Default::default()
    });
    let md = p.to_markdown();
    assert!(md.contains("- [ ]"));
    assert!(md.contains("@dave"));
    assert!(md.contains("(since 2026-03-10)"));

    let restored = Project::from_markdown(&md).unwrap();
    let b = &restored.blockers[0];
    assert_eq!(b.description, "need API docs");
    assert!(!b.resolved);
    assert_eq!(b.since, Some(d(2026, 3, 10)));
    assert_eq!(b.person, Some("@dave".to_string()));
}

#[test]
fn test_resolved_blocker_with_date() {
    let mut p = Project { created: d(2026, 3, 16), ..Project::new("Test") };
    p.blockers.push(Blocker {
        description: "hardware not available".to_string(),
        resolved: true,
        resolved_date: Some(d(2026, 3, 14)),
        ..Default::default()
    });
    let md = p.to_markdown();
    assert!(md.contains("- [x]"));
    assert!(md.contains("~~"));
    assert!(md.contains("(resolved 2026-03-14)"));

    let restored = Project::from_markdown(&md).unwrap();
    let b = &restored.blockers[0];
    assert_eq!(b.description, "hardware not available");
    assert!(b.resolved);
    assert_eq!(b.resolved_date, Some(d(2026, 3, 14)));
}

#[test]
fn test_resolved_blocker_with_person() {
    let mut p = Project { created: d(2026, 3, 16), ..Project::new("Test") };
    p.blockers.push(Blocker {
        description: "waiting on spec".to_string(),
        resolved: true,
        resolved_date: Some(d(2026, 3, 15)),
        person: Some("@carol".to_string()),
        ..Default::default()
    });
    let md = p.to_markdown();
    let restored = Project::from_markdown(&md).unwrap();
    let b = &restored.blockers[0];
    assert_eq!(b.description, "waiting on spec");
    assert!(b.resolved);
    assert_eq!(b.resolved_date, Some(d(2026, 3, 15)));
    assert_eq!(b.person, Some("@carol".to_string()));
}

#[test]
fn test_blocker_no_date_no_person() {
    let mut p = Project { created: d(2026, 3, 16), ..Project::new("Test") };
    p.blockers.push(Blocker { description: "simple blocker".to_string(), ..Default::default() });
    let md = p.to_markdown();
    let restored = Project::from_markdown(&md).unwrap();
    let b = &restored.blockers[0];
    assert_eq!(b.description, "simple blocker");
    assert!(!b.resolved);
    assert_eq!(b.since, None);
    assert_eq!(b.resolved_date, None);
    assert_eq!(b.person, None);
}

#[test]
fn test_decision_with_alternatives() {
    let mut p = Project { created: d(2026, 3, 16), ..Project::new("Test") };
    p.decisions.push(Decision {
        date: d(2026, 2, 1),
        choice: "Use React".to_string(),
        alternatives: vec!["Vue".to_string(), "Angular".to_string()],
    });
    let md = p.to_markdown();
    let restored = Project::from_markdown(&md).unwrap();
    let dec = &restored.decisions[0];
    assert_eq!(dec.date, d(2026, 2, 1));
    assert_eq!(dec.choice, "Use React");
    assert_eq!(dec.alternatives, vec!["Vue", "Angular"]);
}

#[test]
fn test_decision_without_alternatives() {
    let mut p = Project { created: d(2026, 3, 16), ..Project::new("Test") };
    p.decisions.push(Decision {
        date: d(2026, 3, 1),
        choice: "Keep current approach".to_string(),
        alternatives: Vec::new(),
    });
    let md = p.to_markdown();
    assert!(!md.contains("Alternatives"));
    let restored = Project::from_markdown(&md).unwrap();
    assert_eq!(restored.decisions[0].choice, "Keep current approach");
    assert!(restored.decisions[0].alternatives.is_empty());
}

#[test]
fn test_multiple_decisions() {
    let mut p = Project { created: d(2026, 3, 16), ..Project::new("Test") };
    p.decisions = vec![
        Decision { date: d(2026, 1, 1), choice: "First choice".to_string(), alternatives: Vec::new() },
        Decision {
            date: d(2026, 2, 1),
            choice: "Second choice".to_string(),
            alternatives: vec!["Alt A".to_string()],
        },
        Decision { date: d(2026, 3, 1), choice: "Third choice".to_string(), alternatives: Vec::new() },
    ];
    let md = p.to_markdown();
    let restored = Project::from_markdown(&md).unwrap();
    assert_eq!(restored.decisions.len(), 3);
    assert_eq!(restored.decisions[0].choice, "First choice");
    assert_eq!(restored.decisions[1].alternatives, vec!["Alt A"]);
    assert_eq!(restored.decisions[2].choice, "Third choice");
}

#[test]
fn test_multiple_log_entries() {
    let mut p = Project { created: d(2026, 3, 16), ..Project::new("Test") };
    p.log = vec![
        LogEntry {
            date: d(2026, 3, 14),
            lines: vec!["Did thing one".to_string(), "Did thing two".to_string()],
        },
        LogEntry { date: d(2026, 3, 15), lines: vec!["Did thing three".to_string()] },
    ];
    let md = p.to_markdown();
    let restored = Project::from_markdown(&md).unwrap();
    assert_eq!(restored.log.len(), 2);
    assert_eq!(restored.log[0].date, d(2026, 3, 14));
    assert_eq!(restored.log[0].lines, vec!["Did thing one", "Did thing two"]);
    assert_eq!(restored.log[1].date, d(2026, 3, 15));
    assert_eq!(restored.log[1].lines, vec!["Did thing three"]);
}

#[test]
fn test_empty_log_entry() {
    let mut p = Project { created: d(2026, 3, 16), ..Project::new("Test") };
    p.log.push(LogEntry { date: d(2026, 3, 16), lines: Vec::new() });
    let md = p.to_markdown();
    let restored = Project::from_markdown(&md).unwrap();
    assert_eq!(restored.log.len(), 1);
    assert!(restored.log[0].lines.is_empty());
}

#[test]
fn test_project_empty_body() {
    let md = "---\nname: Empty\nstatus: active\npriority: low\ntags: []\ncreated: '2026-03-16'\n---\n";
    let p = Project::from_markdown(md).unwrap();
    assert_eq!(p.name, "Empty");
    assert!(p.blockers.is_empty());
    assert!(p.decisions.is_empty());
    assert!(p.log.is_empty());
    assert_eq!(p.current_focus, "");
}

#[test]
fn test_project_extra_whitespace_in_body() {
    let p = Project {
        created: d(2026, 3, 16),
        current_focus: "  some focus  ".to_string(),
        ..Project::new("Whitespace Test")
    };
    let md = p.to_markdown();
    let restored = Project::from_markdown(&md).unwrap();
    assert_eq!(restored.current_focus, "some focus");
}

#[test]
fn test_slug_auto_generated() {
    let p = Project::new("My Cool Project");
    assert_eq!(p.slug, "my-cool-project");
}

#[test]
fn test_slug_preserved_if_set() {
    let mut p = Project::new("My Cool Project");
    p.slug = "custom-slug".to_string();
    assert_eq!(p.slug, "custom-slug");
}

#[test]
fn test_slug_from_filename_overrides_name() {
    let md = "---\nname: My Project\nstatus: active\npriority: medium\ntags: []\ncreated: '2026-03-16'\n---\n";
    let p = Project::from_markdown_with_slug(md, Some("custom-filename-slug")).unwrap();
    assert_eq!(p.slug, "custom-filename-slug");
    assert_eq!(p.name, "My Project");
}

#[test]
fn test_yaml_parse_error_returns_err() {
    let md = "---\nname: Test\nstatus: [unclosed\n---\n";
    assert!(Project::from_markdown(md).is_err());
}

#[test]
fn test_project_roundtrip_year_boundary_2000() {
    let date = d(2000, 1, 1);
    let mut p = Project::new("Year 2000 Project");
    p.created = date;
    p.target = Some(d(2000, 12, 31));
    let md = p.to_markdown();
    let p2 = Project::from_markdown(&md).unwrap();
    assert_eq!(p2.created, date);
    assert_eq!(p2.target, p.target);
}

#[test]
fn test_project_roundtrip_year_boundary_2099() {
    let date = d(2099, 12, 31);
    let mut p = Project::new("Far Future Project");
    p.created = date;
    p.target = Some(date);
    let md = p.to_markdown();
    let p2 = Project::from_markdown(&md).unwrap();
    assert_eq!(p2.created, date);
}

#[test]
fn test_project_roundtrip_all_status_values() {
    for status in [Status::Active, Status::Blocked, Status::Pending, Status::Parked, Status::Done] {
        let mut p = Project::new("Status Test");
        p.status = status;
        let md = p.to_markdown();
        let p2 = Project::from_markdown(&md).unwrap();
        assert_eq!(p2.status, status, "status {:?} did not survive round-trip", status);
    }
}

#[test]
fn test_project_roundtrip_all_priority_values() {
    for priority in [Priority::High, Priority::Medium, Priority::Low] {
        let mut p = Project::new("Priority Test");
        p.priority = priority;
        let md = p.to_markdown();
        let p2 = Project::from_markdown(&md).unwrap();
        assert_eq!(p2.priority, priority, "priority {:?} did not survive round-trip", priority);
    }
}

#[test]
fn test_project_roundtrip_unicode_in_focus() {
    let mut p = Project::new("Unicode Project");
    p.current_focus = "Debugging 日本語 chars and café résumé".to_string();
    let md = p.to_markdown();
    let p2 = Project::from_markdown(&md).unwrap();
    assert_eq!(p2.current_focus.trim(), p.current_focus.trim());
}

#[test]
fn test_project_roundtrip_unicode_in_name() {
    for name in ["Café Project", "Proiect România", "プロジェクト名"] {
        let p = Project::new(name);
        let md = p.to_markdown();
        let p2 = Project::from_markdown(&md).unwrap();
        assert_eq!(&p2.name, name, "unicode name '{}' did not survive round-trip", name);
    }
}

#[test]
fn test_project_roundtrip_name_with_colon() {
    let p = Project::new("Project: Phase 2");
    let md = p.to_markdown();
    let p2 = Project::from_markdown(&md).unwrap();
    assert_eq!(p2.name, "Project: Phase 2");
}

#[test]
fn test_project_roundtrip_name_with_hash() {
    let p = Project::new("Project #1 Fix");
    let md = p.to_markdown();
    let p2 = Project::from_markdown(&md).unwrap();
    assert_eq!(p2.name, "Project #1 Fix");
}

#[test]
fn test_project_roundtrip_name_with_brackets() {
    let p = Project::new("Project [MVP] release");
    let md = p.to_markdown();
    let p2 = Project::from_markdown(&md).unwrap();
    assert_eq!(p2.name, "Project [MVP] release");
}

#[test]
fn test_project_roundtrip_long_name() {
    let name = "A".repeat(200);
    let p = Project::new(&name);
    let md = p.to_markdown();
    let p2 = Project::from_markdown(&md).unwrap();
    assert_eq!(p2.name, name);
}

#[test]
fn test_project_blockers_with_at_mention_survives_roundtrip() {
    let mut p = Project::new("Mention Test");
    p.blockers.push(Blocker {
        description: "waiting on API from vendor".to_string(),
        resolved: false,
        since: Some(d(2026, 1, 15)),
        resolved_date: None,
        person: Some("@alice-vendor".to_string()),
    });
    let md = p.to_markdown();
    let p2 = Project::from_markdown(&md).unwrap();
    let b = &p2.blockers[0];
    assert_eq!(b.description, "waiting on API from vendor");
    assert_eq!(b.person, Some("@alice-vendor".to_string()));
}

#[test]
fn test_project_log_entry_with_markdown_formatting() {
    let mut p = Project::new("Markdown Log Test");
    p.log.push(LogEntry {
        date: d(2026, 3, 1),
        lines: vec![
            "Fixed issue with **bold** text in output".to_string(),
            "Reviewed PR #42 and approved".to_string(),
        ],
    });
    let md = p.to_markdown();
    let p2 = Project::from_markdown(&md).unwrap();
    assert_eq!(p2.log[0].lines[0], "Fixed issue with **bold** text in output");
    assert_eq!(p2.log[0].lines[1], "Reviewed PR #42 and approved");
}

#[test]
fn project_markdown_exact_text() {
    let mut p = Project::new_on("It's 2026-01-01", d(2026, 3, 16));
    p.tags = vec!["true".to_string(), "x y".to_string(), "12".to_string()];
    p.active_issue = Some(7);
    assert_eq!(
        p.to_markdown(),
        "---\ncreated: '2026-03-16'\nname: 'It''s 2026-01-01'\npriority: medium\nstatus: active\ntags:\n- 'true'\n- x y\n- '12'\nactive_issue: 7\n---"
    );
}

#[test]
fn project_missing_frontmatter_and_bad_dates() {
    assert_eq!(
        Project::from_markdown("no frontmatter").unwrap_err(),
        "missing YAML frontmatter (file must start with '---')"
    );
    let bad = "---\nname: X\n---\n## Decisions\n- **2026-13-45:** nope\n";
    assert!(!Project::reads_without_panic(bad));
    assert!(Project::try_from_markdown(bad).is_none());
    let fine = "---\nname: X\ncreated: '2026-01-02'\nactive_issue: '12'\n---\n## Log\n### 2026-01-03\n- a\n  - b  \n";
    let p = Project::try_from_markdown(fine).unwrap().unwrap();
    assert_eq!(p.created, d(2026, 1, 2));
    assert_eq!(p.active_issue, Some(12));
    assert_eq!(p.log[0].lines, vec!["a", "b"]);
}

#[test]
fn project_on_given_day_and_unknown_status() {
    let md = "---\nname: Alpha Beta\nstatus: weird\npriority: HIGH\n---\n## Current Focus\n\n  line one\nline two  \n";
    let p = Project::from_markdown_with_slug_on(md, None, d(2030, 5, 6)).unwrap();
    assert_eq!(p.created, d(2030, 5, 6));
    assert_eq!(p.status, Status::Active);
    assert_eq!(p.priority, Priority::High);
    assert_eq!(p.slug, "alpha-beta");
    assert_eq!(p.current_focus, "line one\nline two");
}

#[test]
fn focus_with_spaces_reads_back_trimmed() {
    let mut p = Project::new("Spaces");
    p.current_focus = "  padded focus  ".to_string();
    let p2 = Project::from_markdown(&p.to_markdown()).unwrap();
    assert_eq!(p2.current_focus, "padded focus");
    p.current_focus = "   ".to_string();
    let p3 = Project::from_markdown(&p.to_markdown()).unwrap();
    assert_eq!(p3.current_focus, "");
    p.current_focus = " trailing ".to_string();
    p.log.push(LogEntry { date: d(2026, 3, 1), lines: vec!["one".to_string()] });
    let p4 = Project::from_markdown(&p.to_markdown()).unwrap();
    assert_eq!(p4.current_focus, "trailing");
    assert_eq!(p4.log.len(), 1);
    assert_eq!(p4.log[0].lines, vec!["one".to_string()]);
}

#[test]
fn notes_go_to_the_day_entry() {
    let mut p = make_full_project();
    let before = p.log.len();
    let day = p.log[0].date;
    p.add_note_on(day, "more progress");
    assert_eq!(p.log.len(), before);
    assert_eq!(p.log[0].lines.last().unwrap(), "more progress");
    p.add_note_on(d(2030, 1, 2), "new day");
    assert_eq!(p.log.len(), before + 1);
    assert_eq!(p.log[0].date, d(2030, 1, 2));
    assert_eq!(p.log[0].lines, vec!["new day".to_string()]);
    p.add_note_on(d(2030, 1, 2), "again");
    assert_eq!(p.log[0].lines, vec!["new day".to_string(), "again".to_string()]);
}

#[test]
fn blockers_name_the_first_mention() {
    let mut p = make_full_project();
    let n = p.blockers.len();
    p.add_blocker_on(d(2030, 1, 2), "waiting on @dave and @erin");
    let b = &p.blockers[n];
    assert_eq!(b.description, "waiting on @dave and @erin");
    assert_eq!(b.person.as_deref(), Some("@dave"));
    assert_eq!(b.since, Some(d(2030, 1, 2)));
    assert!(!b.resolved && b.resolved_date.is_none());
    p.add_blocker("no one named");
    assert!(p.blockers[n + 1].person.is_none());
    assert!(p.blockers[n + 1].since.is_some());
}

#[test]
fn recent_notes_are_the_first_ten_lines() {
    let mut p = make_full_project();
    p.log = vec![
        LogEntry { date: d(2026, 3, 3), lines: vec!["c1".into(), "c2".into()] },
        LogEntry { date: d(2026, 3, 2), lines: vec!["b1".into()] },
    ];
    assert_eq!(Project::collect_recent_notes(&p), vec!["c1", "c2", "b1"]);
    p.log = vec![
        LogEntry { date: d(2026, 3, 3), lines: (0..7).map(|i| format!("x{i}")).collect() },
        LogEntry { date: d(2026, 3, 2), lines: (0..7).map(|i| format!("y{i}")).collect() },
    ];
    let notes = Project::collect_recent_notes(&p);
    assert_eq!(notes.len(), 10);
    assert_eq!(notes[6], "x6");
    assert_eq!(notes[9], "y2");
}

#[test]
fn cycles_and_resolving() {
    let mut p = make_full_project();
    let seen: Vec<Status> = (0..5).map(|_| { p.cycle_status(); p.status }).collect();
    assert_eq!(seen, vec![Status::Blocked, Status::Pending, Status::Parked, Status::Done, Status::Active]);
    p.priority = Priority::High;
    p.cycle_priority();
    assert_eq!(p.priority, Priority::Medium);
    p.cycle_priority();
    p.cycle_priority();
    assert_eq!(p.priority, Priority::High);
    assert!(p.resolve_blocker_on(0, d(2030, 5, 6)));
    assert!(p.blockers[0].resolved);
    assert_eq!(p.blockers[0].resolved_date, Some(d(2030, 5, 6)));
    assert_eq!(p.blockers[0].description, "waiting on display spec");
    let before = p.blockers.len();
    assert!(!p.resolve_blocker_on(before, d(2030, 5, 6)));
    assert_eq!(p.blockers.len(), before);
}

#[test]
fn project_round_trip_quoted_names_and_far_dates() {
    for name in ["true", "2024-01-01", "it's here", "1.5", "Plain Name", "NaN", "a: b"] {
        let mut p = Project::new_on(name, Date { year: 12345, month: 1, day: 31 });
        p.target = Some(Date { year: -7, month: 12, day: 1 });
        p.tags = vec!["yes".to_string(), "x-y".to_string()];
        p.active_issue = Some(42);
        let md = p.to_markdown();
        let back = Project::from_markdown(&md).unwrap();
        assert_eq!(back, p, "name {name}");
        assert_eq!(back.to_markdown(), md);
    }
}
