use jm_core::status::{IssueStatus, Priority, Status};

#[test]
fn test_issue_status_cycle() {
    assert_eq!(IssueStatus::Todo.cycle(), IssueStatus::Active);
    assert_eq!(IssueStatus::Active.cycle(), IssueStatus::Blocked);
    assert_eq!(IssueStatus::Blocked.cycle(), IssueStatus::Done);
    assert_eq!(IssueStatus::Done.cycle(), IssueStatus::Todo);
}

#[test]
fn test_issue_status_cycle_reverse() {
    assert_eq!(IssueStatus::Todo.cycle_reverse(), IssueStatus::Done);
    assert_eq!(IssueStatus::Active.cycle_reverse(), IssueStatus::Todo);
    assert_eq!(IssueStatus::Blocked.cycle_reverse(), IssueStatus::Active);
    assert_eq!(IssueStatus::Done.cycle_reverse(), IssueStatus::Blocked);
}

#[test]
fn test_issue_status_cycle_roundtrip() {
    for &status in IssueStatus::all_variants() {
        assert_eq!(status.cycle().cycle_reverse(), status);
        assert_eq!(status.cycle_reverse().cycle(), status);
    }
}

#[test]
fn test_issue_status_all_variants() {
    let all = IssueStatus::all_variants();
    assert_eq!(all.len(), 4);
    assert_eq!(all[0], IssueStatus::Todo);
    assert_eq!(all[1], IssueStatus::Active);
    assert_eq!(all[2], IssueStatus::Blocked);
    assert_eq!(all[3], IssueStatus::Done);
}

#[test]
fn test_issue_status_parse() {
    assert_eq!("todo".parse::<IssueStatus>().unwrap(), IssueStatus::Todo);
    assert_eq!("active".parse::<IssueStatus>().unwrap(), IssueStatus::Active);
    assert_eq!("blocked".parse::<IssueStatus>().unwrap(), IssueStatus::Blocked);
    assert_eq!("done".parse::<IssueStatus>().unwrap(), IssueStatus::Done);
    assert!("invalid".parse::<IssueStatus>().is_err());
}

#[test]
fn test_status_display() {
    assert_eq!(Status::Active.to_string(), "active");
    assert_eq!(Status::Blocked.to_string(), "blocked");
    assert_eq!(Status::Pending.to_string(), "pending");
    assert_eq!(Status::Parked.to_string(), "parked");
    assert_eq!(Status::Done.to_string(), "done");
}

#[test]
fn test_status_parse() {
    assert_eq!("active".parse::<Status>(), Ok(Status::Active));
    assert_eq!("ACTIVE".parse::<Status>(), Ok(Status::Active));
    assert_eq!("blocked".parse::<Status>(), Ok(Status::Blocked));
    assert!("unknown".parse::<Status>().is_err());
}

#[test]
fn test_priority_display() {
    assert_eq!(Priority::High.to_string(), "high");
    assert_eq!(Priority::Medium.to_string(), "medium");
    assert_eq!(Priority::Low.to_string(), "low");
}

#[test]
fn test_priority_parse() {
    assert_eq!("high".parse::<Priority>(), Ok(Priority::High));
    assert_eq!("HIGH".parse::<Priority>(), Ok(Priority::High));
    assert_eq!("medium".parse::<Priority>(), Ok(Priority::Medium));
    assert!("unknown".parse::<Priority>().is_err());
}

#[test]
fn issue_status_parse_trims_and_ignores_case() {
    assert_eq!(IssueStatus::parse("  DONE "), Ok(IssueStatus::Done));
    assert_eq!(
        IssueStatus::parse(" Weird "),
        Err("unknown issue status: 'weird'".to_string())
    );
    assert_eq!(IssueStatus::Blocked.to_string(), "blocked");
}

#[test]
fn status_defaults() {
    assert_eq!(Status::default(), Status::Active);
    assert_eq!(Priority::default(), Priority::Medium);
}
