use jm_core::crosslinks::{extract_links, split_with_links};

#[test]
fn test_extract_links() {
    let links = extract_links("See [[foo-bar]] and [[baz]]");
    assert_eq!(links, vec!["foo-bar", "baz"]);
}

#[test]
fn test_extract_no_links() {
    let links = extract_links("No links here");
    assert!(links.is_empty());
}

#[test]
fn test_split_with_links() {
    let parts = split_with_links("See [[foo]] and [[bar]] end");
    assert_eq!(parts.len(), 5);
    assert_eq!(parts[0], ("See ".to_string(), false));
    assert_eq!(parts[1], ("[[foo]]".to_string(), true));
    assert_eq!(parts[2], (" and ".to_string(), false));
    assert_eq!(parts[3], ("[[bar]]".to_string(), true));
    assert_eq!(parts[4], (" end".to_string(), false));
}

#[test]
fn extract_rejects_upper_case_and_empty_slugs() {
    assert!(extract_links("[[Foo]] [[]] [[a b]] [[x]").is_empty());
    assert_eq!(extract_links("[[[a]]]"), vec!["a"]);
    assert_eq!(extract_links("[[a-1]][[b]]"), vec!["a-1", "b"]);
}

#[test]
fn split_link_at_edges_and_unicode() {
    let parts = split_with_links("[[a]]é[[b]]");
    assert_eq!(
        parts,
        vec![
            ("[[a]]".to_string(), true),
            ("é".to_string(), false),
            ("[[b]]".to_string(), true)
        ]
    );
    assert!(split_with_links("").is_empty());
}

#[test]
fn split_pieces_rejoin_and_agree_with_extract() {
    let text = "x [[one]] y [[two-2]] [[Bad]] z";
    let parts = split_with_links(text);
    let joined: String = parts.iter().map(|(t, _)| t.as_str()).collect();
    assert_eq!(joined, text);
    let slugs: Vec<String> = parts
        .iter()
        .filter(|(_, l)| *l)
        .map(|(t, _)| t[2..t.len() - 2].to_string())
        .collect();
    assert_eq!(slugs, extract_links(text));
}

use jm_core::crosslinks::find_references;
use jm_core::date::Date;
use jm_core::project::{Blocker, Decision, LogEntry, Project};

fn make_project(slug: &str, focus: &str, log_lines: Vec<&str>) -> Project {
    let mut p = Project::new(slug);
    p.current_focus = focus.to_string();
    if !log_lines.is_empty() {
        p.log.push(LogEntry {
            date: Date::from_ymd_opt(2026, 3, 17).unwrap(),
            lines: log_lines.into_iter().map(String::from).collect(),
        });
    }
    p
}

#[test]
fn test_find_references() {
    let projects = vec![
        make_project("alpha", "Working on [[beta]] integration", vec![]),
        make_project("beta", "Core lib", vec!["Need to check [[alpha]]"]),
        make_project("gamma", "Unrelated", vec![]),
    ];

    let refs = find_references("beta", &projects);
    assert_eq!(refs.len(), 1);
    assert_eq!(refs[0].0, "alpha");

    let refs = find_references("alpha", &projects);
    assert_eq!(refs.len(), 1);
    assert_eq!(refs[0].0, "beta");

    let refs = find_references("gamma", &projects);
    assert!(refs.is_empty());
}

#[test]
fn find_references_reports_each_place_in_order() {
    let mut p = make_project("one", "see [[two]]", vec!["a [[two]]", "b", "c [[two]]"]);
    p.blockers.push(Blocker { description: "on [[two]]".to_string(), ..Default::default() });
    p.decisions.push(Decision {
        date: Date::from_ymd_opt(2026, 1, 1).unwrap(),
        choice: "keep [[two]]".to_string(),
        alternatives: vec![],
    });
    let two = make_project("two", "[[two]] itself", vec![]);
    let refs = find_references("two", &[p, two]);
    let want: Vec<(String, String)> = vec![
        ("one".into(), "Focus: see [[two]]".into()),
        ("one".into(), "Blocker: on [[two]]".into()),
        ("one".into(), "Decision: keep [[two]]".into()),
        ("one".into(), "a [[two]]".into()),
        ("one".into(), "c [[two]]".into()),
    ];
    assert_eq!(refs, want);
}
