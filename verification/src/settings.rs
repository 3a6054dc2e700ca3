//! Preferences of the application, and the places of its files.

use vstd::prelude::*;

verus! {

/// Name of the file that holds the preferences.
pub const SETTINGS_FILE: &'static str = "settings.toml";

/// Name of the file that holds the connection profiles.
pub const PROFILES_FILE: &'static str = "connections.toml";

/// Name of the file that holds the query history.
pub const HISTORY_FILE: &'static str = "history.json";

/// Theme of the user interface.
#[derive(Debug, Clone, Copy, PartialEq, Eq, Structural)]
pub enum ThemeChoice {
    Dark,
    Light,
    System,
}

impl Default for ThemeChoice {
    fn default() -> (res: ThemeChoice)
        ensures
            res == ThemeChoice::System,
    {
        ThemeChoice::System
    }
}

/// The preferences.
#[derive(Debug, Clone, PartialEq, Eq)]
pub struct AppSettings {
    pub theme: ThemeChoice,
    pub history_limit: usize,
    /// Directory in which the last file was picked.
    pub last_browse_dir: Option<String>,
}

/// History limit of a settings file that does not set one.
pub fn default_history_limit() -> (res: usize)
    ensures
        res == 500,
{
    500
}

impl Default for AppSettings {
    /// The preferences while there is no settings file that can be read. No
    /// history is kept then: the limit of [`default_history_limit`] is for a
    /// settings file that is there and leaves it out.
    fn default() -> (res: AppSettings)
        ensures
            res.theme == ThemeChoice::System,
            res.history_limit == 0,
            res.last_browse_dir is None,
    {
        AppSettings { theme: ThemeChoice::System, history_limit: 0, last_browse_dir: None }
    }
}

/// Where the preferences are kept.
#[derive(Debug, Clone)]
pub struct SettingsStore {
    path: String,
}

impl SettingsStore {
    /// The path of the file.
    pub closed spec fn location(self) -> Seq<char> {
        self.path@
    }

    /// A store in the file at `path`.
    pub fn at(path: String) -> (res: SettingsStore)
        ensures
            res.location() == path@,
    {
        SettingsStore { path }
    }

    /// The path of the file.
    pub fn path(&self) -> (res: &str)
        ensures
            res@ == self.location(),
    {
        self.path.as_str()
    }

    /// The preferences, given what the file holds: `None` where there is no
    /// file, and an error in it where it cannot be parsed. Both give the
    /// defaults.
    pub fn load(&self, file: Option<Result<AppSettings, String>>) -> (res: AppSettings)
        ensures
            match file {
                Some(Ok(settings)) => res == settings,
                _ => res.theme == ThemeChoice::System && res.history_limit == 0
                    && res.last_browse_dir is None,
            },
    {
        match file {
            Some(Ok(settings)) => settings,
            _ => AppSettings::default(),
        }
    }
}

} // verus!
