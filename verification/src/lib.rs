pub mod text;
pub mod status;
pub mod date;
pub mod issue;
pub mod person;
pub mod project;
pub mod crosslinks;
pub mod config;
pub mod events;
pub mod plugins;
pub mod jira;
pub mod yaml;
pub mod project_md;
pub mod export;
pub mod json;
pub mod adf;
pub mod pomodoro;
pub mod board;
pub mod jira_api;
pub mod modals;
pub mod person_laws;
pub mod project_laws;
pub mod keyhints;
pub mod jira_board;
pub mod jira_client;
pub mod listing;
pub mod project_ops;
pub mod frontmatter_laws;
pub mod command;
pub mod submit;
pub mod select;
pub mod update;
pub mod sidebar;
