use jm_core::command::{command_effect, parse_command, Command, CommandContext, CommandEffect};

fn ctx() -> CommandContext {
    CommandContext {
        screen_project: None,
        on_dashboard: true,
        dashboard_selected: Some("alpha".to_string()),
        active: Some("beta".to_string()),
        work_exact: false,
        projects: vec![
            ("alpha".to_string(), "Alpha Project".to_string()),
            ("hmi-framework".to_string(), "HMI Framework".to_string()),
        ],
    }
}

#[test]
fn command_parse_words() {
    assert!(matches!(parse_command(""), Command::Empty));
    assert!(matches!(parse_command(":::  "), Command::Empty));
    assert!(matches!(parse_command(":q"), Command::Quit));
    assert!(matches!(parse_command("quit"), Command::Quit));
    assert!(matches!(parse_command(":done"), Command::Done));
    match parse_command(":note   hello  world  ") {
        Command::Note(t) => assert_eq!(t, "hello  world"),
        other => panic!("unexpected {:?}", other),
    }
    match parse_command(":work\thmi") {
        Command::Work(t) => assert_eq!(t, "hmi"),
        other => panic!("unexpected {:?}", other),
    }
    match parse_command("park") {
        Command::Park(t) => assert_eq!(t, ""),
        other => panic!("unexpected {:?}", other),
    }
    match parse_command(":frobnicate now") {
        Command::Unknown(c) => assert_eq!(c, "frobnicate"),
        other => panic!("unexpected {:?}", other),
    }
}

#[test]
fn command_work_finds_project() {
    let c = ctx();
    match command_effect(&parse_command(":work HMI"), &c) {
        CommandEffect::StartWork(s) => assert_eq!(s, "hmi-framework"),
        other => panic!("unexpected {:?}", other),
    }
    match command_effect(&parse_command(":work zzz"), &c) {
        CommandEffect::Toast(m) => assert_eq!(m, "No project matching 'zzz'"),
        other => panic!("unexpected {:?}", other),
    }
    match command_effect(&parse_command(":work"), &c) {
        CommandEffect::Toast(m) => assert_eq!(m, "Usage: :work <slug>"),
        other => panic!("unexpected {:?}", other),
    }
    let mut exact = ctx();
    exact.work_exact = true;
    match command_effect(&parse_command(":work zzz"), &exact) {
        CommandEffect::StartWork(s) => assert_eq!(s, "zzz"),
        other => panic!("unexpected {:?}", other),
    }
}

#[test]
fn command_note_block_park_targets() {
    let c = ctx();
    match command_effect(&parse_command(":note shipped it"), &c) {
        CommandEffect::AddNote(s, t) => {
            assert_eq!(s, "beta");
            assert_eq!(t, "shipped it");
        }
        other => panic!("unexpected {:?}", other),
    }
    let mut on_screen = ctx();
    on_screen.screen_project = Some("gamma".to_string());
    match command_effect(&parse_command(":block waiting on @sam"), &on_screen) {
        CommandEffect::AddBlocker(s, t) => {
            assert_eq!(s, "gamma");
            assert_eq!(t, "waiting on @sam");
        }
        other => panic!("unexpected {:?}", other),
    }
    let mut none = ctx();
    none.active = None;
    match command_effect(&parse_command(":note x"), &none) {
        CommandEffect::Toast(m) => assert_eq!(m, "No active project. Use :work <slug> first."),
        other => panic!("unexpected {:?}", other),
    }
    match command_effect(&parse_command(":block"), &c) {
        CommandEffect::Toast(m) => assert_eq!(m, "Usage: :block <text>"),
        other => panic!("unexpected {:?}", other),
    }
    match command_effect(&parse_command(":park"), &c) {
        CommandEffect::Park(s) => assert_eq!(s, "alpha"),
        other => panic!("unexpected {:?}", other),
    }
    let mut elsewhere = ctx();
    elsewhere.on_dashboard = false;
    match command_effect(&parse_command(":park"), &elsewhere) {
        CommandEffect::Toast(m) => assert_eq!(m, "Usage: :park <slug>  (or navigate to a project first)"),
        other => panic!("unexpected {:?}", other),
    }
    match command_effect(&parse_command(":park delta"), &elsewhere) {
        CommandEffect::Park(s) => assert_eq!(s, "delta"),
        other => panic!("unexpected {:?}", other),
    }
    match command_effect(&parse_command(":xyz"), &c) {
        CommandEffect::Toast(m) => assert_eq!(m, "Unknown command: :xyz"),
        other => panic!("unexpected {:?}", other),
    }
    assert!(matches!(command_effect(&parse_command(":q"), &c), CommandEffect::Quit));
    assert!(matches!(command_effect(&parse_command(":done"), &c), CommandEffect::EndDay));
    assert!(matches!(command_effect(&parse_command(""), &c), CommandEffect::Nothing));
}
