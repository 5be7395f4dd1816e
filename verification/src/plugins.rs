//! What a full-screen plugin hands back to the application, and the About screen.
use vstd::prelude::*;
use crate::text::{str_chars, string_from_chars};
use crate::events::{KeyCode, KeyPress};

verus! {

broadcast use vstd::string::group_string_axioms;

/// Actions a screen plugin can request from the app.
///
/// Deliberately limited — screen plugins do NOT have access to the full action set.
/// The app translates `PluginAction` values into its own actions as needed.
#[derive(Debug, Clone, PartialEq, Eq)]
pub enum PluginAction {
    /// Key was handled, no app-level action needed.
    NoAction,
    /// Navigate back to Dashboard.
    Back,
    /// Show a toast notification with the given message.
    Toast(String),
}

/// The version the About screen shows.
pub const JM_VERSION: &'static str = "0.1.0";

/// Full-screen About plugin: shows the version; it holds no other state.
pub struct AboutPlugin {
    version: String,
}

impl AboutPlugin {
    /// The version text this screen shows.
    pub closed spec fn version_text(&self) -> Seq<char> {
        self.version@
    }

    /// Create a new AboutPlugin. Always registered — no config required.
    pub fn new() -> (r: Self)
        ensures
            r.version_text() == JM_VERSION@,
    {
        AboutPlugin { version: string_from_chars(&str_chars(JM_VERSION)) }
    }

    /// The screen's name: `about`.
    pub fn name(&self) -> (r: &'static str)
        ensures
            r@ == "about"@,
    {
        "about"
    }

    /// The screen shows static text, so it needs no timer.
    pub fn needs_timer(&self) -> (r: bool)
        ensures
            !r,
    {
        false
    }

    /// Esc and `q` go back; every other key does nothing.
    pub fn handle_key(&mut self, key: KeyPress) -> (r: PluginAction)
        ensures
            final(self).version_text() == old(self).version_text(),
            (key.code == KeyCode::Esc || key.code == KeyCode::Char('q')) ==> r == PluginAction::Back,
            !(key.code == KeyCode::Esc || key.code == KeyCode::Char('q')) ==> r == PluginAction::NoAction,
    {
        match key.code {
            KeyCode::Esc => PluginAction::Back,
            KeyCode::Char(c) => {
                if c == 'q' {
                    PluginAction::Back
                } else {
                    PluginAction::NoAction
                }
            },
            _ => PluginAction::NoAction,
        }
    }

    /// The key hints of the screen: Esc and `q`, both back.
    pub fn key_hints(&self) -> (r: Vec<(&'static str, &'static str)>)
        ensures
            r@.len() == 2,
            r@[0].0@ == "Esc"@ && r@[0].1@ == "back"@,
            r@[1].0@ == "q"@ && r@[1].1@ == "back"@,
    {
        vec![("Esc", "back"), ("q", "back")]
    }

    /// The version text this screen shows.
    pub fn version(&self) -> (r: &str)
        ensures
            r@ == self.version_text(),
    {
        self.version.as_str()
    }
}

impl Default for AboutPlugin {
    fn default() -> (r: Self)
        ensures
            r.version_text() == JM_VERSION@,
    {
        Self::new()
    }
}

} // verus!
