//! The six folders of an installation that can be selected for a backup.

use vstd::prelude::*;

verus! {

/// A selectable folder of the installation.
#[derive(Debug, Clone, Copy, PartialEq, Eq, Structural)]
pub enum Folders {
    Saves,
    Config,
    Screenshots,
    Mods,
    Logs,
    Backups,
}

impl Folders {
    /// The name of the subdirectory of the base directory that the folder stands for.
    pub open spec fn dir_name(self) -> Seq<char> {
        match self {
            Folders::Saves => "saves"@,
            Folders::Config => "config"@,
            Folders::Screenshots => "screenshots"@,
            Folders::Mods => "mods"@,
            Folders::Logs => "logs"@,
            Folders::Backups => "backups"@,
        }
    }

    /// The name under which the folder appears in a metadata record.
    pub open spec fn tag_name(self) -> Seq<char> {
        match self {
            Folders::Saves => "Saves"@,
            Folders::Config => "Config"@,
            Folders::Screenshots => "Screenshots"@,
            Folders::Mods => "Mods"@,
            Folders::Logs => "Logs"@,
            Folders::Backups => "Backups"@,
        }
    }

    /// The subdirectory name of the folder.
    pub fn subdirectory(self) -> (name: &'static str)
        ensures
            name@ == self.dir_name(),
    {
        match self {
            Folders::Saves => "saves",
            Folders::Config => "config",
            Folders::Screenshots => "screenshots",
            Folders::Mods => "mods",
            Folders::Logs => "logs",
            Folders::Backups => "backups",
        }
    }

    /// The record name of the folder.
    pub fn tag(self) -> (name: &'static str)
        ensures
            name@ == self.tag_name(),
    {
        match self {
            Folders::Saves => "Saves",
            Folders::Config => "Config",
            Folders::Screenshots => "Screenshots",
            Folders::Mods => "Mods",
            Folders::Logs => "Logs",
            Folders::Backups => "Backups",
        }
    }
}

} // verus!
