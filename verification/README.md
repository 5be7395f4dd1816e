# jm_core

The core of `jm`, a job manager for engineers who work on several projects at once: the
Markdown files it keeps (projects, issues, people), the text reports it prints, the state
machines of its terminal interface (input and select modals, the pomodoro timer, the JIRA
board) and the JIRA client's decisions (requests, retries, reading replies). Every function
in `src/` carries a contract that Verus proves, except the few trusted wrappers marked
`#[verifier::external_body]` that call chrono, regex, base64, serde_yml and std: Verus takes
their contracts on trust, and each one's doc comment says what it claims of the outside
call.

Layout:

- `src/` — the verified library. Text and date helpers (`text`, `date`), the file formats
  (`issue`, `person`, `project_md`, `yaml`), the export and reports (`export`, `listing`),
  cross-links (`crosslinks`), the interface's state machines (`modals`, `pomodoro`,
  `board`, `jira_board`, `keyhints`, `events`, `sidebar`), the decisions of the main loop
  (`command` for command mode, `submit` for input boxes, `select` for selection lists,
  `update` for the actions that open input boxes), the JIRA data and client (`json`,
  `adf`, `jira`, `jira_api`, `jira_client`), and the laws that span several functions
  (`person_laws`, `project_laws`, `frontmatter_laws`, `project_ops`).
- `tests/` — tests that run the library with the real outside crates linked.
- `app/` — the `jm` command: configuration, the data directory, and printing; it gathers
  what the library's decisions need and carries out what they return.
