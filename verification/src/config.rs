//! The plugin's configuration.
use crate::text::{chars_of, copy_of, same_text};
use vstd::prelude::*;

verus! {

/// Where notes are kept and how tabs with a note are marked.
#[derive(Debug)]
pub struct Config {
    pub notes_dir: String,
    pub icon: String,
}

/// A configuration as plain values.
pub struct Settings {
    pub notes_dir: Seq<char>,
    pub icon: Seq<char>,
}

impl View for Config {
    type V = Settings;

    open spec fn view(&self) -> Settings {
        Settings { notes_dir: self.notes_dir@, icon: self.icon@ }
    }
}

/// A configuration, or what is wrong with it, as plain values.
pub open spec fn settings_of(config: Result<Config, String>) -> Result<Settings, Seq<char>> {
    match config {
        Ok(c) => Ok(c@),
        Err(e) => Err(e@),
    }
}

/// The icon that is used if none is configured.
pub const DEFAULT_ICON: &'static str = "📝";

pub const NO_NOTES_DIR: &'static str = "tab-notes: notes_dir is not configured";

pub const RELATIVE_NOTES_DIR: &'static str = "tab-notes: notes_dir must be an absolute path";

impl Config {
    /// The configuration from its entries. The directory is needed, and must be absolute:
    /// commands run without a shell, so a leading `~` would not be expanded.
    pub fn from_entries(notes_dir: Option<String>, icon: Option<String>) -> (config: Result<
        Config,
        String,
    >)
        ensures
            settings_of(config) == match notes_dir {
                None => Err(NO_NOTES_DIR@),
                Some(dir) => if dir@.len() > 0 && dir@[0] == '/' {
                    Ok(
                        Settings {
                            notes_dir: dir@,
                            icon: match icon {
                                Some(i) => i@,
                                None => DEFAULT_ICON@,
                            },
                        },
                    )
                } else {
                    Err(RELATIVE_NOTES_DIR@)
                },
            },
    {
        match notes_dir {
            None => Err(copy_of(NO_NOTES_DIR)),
            Some(dir) => {
                let v = chars_of(dir.as_str());
                if v.len() > 0 && v[0] == '/' {
                    let icon = match icon {
                        Some(i) => i,
                        None => copy_of(DEFAULT_ICON),
                    };
                    Ok(Config { notes_dir: dir, icon })
                } else {
                    Err(copy_of(RELATIVE_NOTES_DIR))
                }
            },
        }
    }
}

/// What an instance of the plugin does.
#[derive(Debug, Clone, Copy, PartialEq, Eq, Structural)]
pub enum Role {
    /// Shows and edits the note of one tab.
    Modal,
    /// Keeps tab names and notes in step, in the background.
    Watcher,
}

/// The role that the configuration names. Everything but `modal` is the watcher.
pub fn role_of(entry: Option<&str>) -> (role: Role)
    ensures
        role == match entry {
            Some(name) => if name@ == "modal"@ {
                Role::Modal
            } else {
                Role::Watcher
            },
            None => Role::Watcher,
        },
{
    match entry {
        Some(name) => if same_text(name, "modal") {
            Role::Modal
        } else {
            Role::Watcher
        },
        None => Role::Watcher,
    }
}

} // verus!
