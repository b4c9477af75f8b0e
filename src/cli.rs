//! Plain command types of the command-line surface.

use vstd::prelude::*;

verus! {

/// A yes/no answer given on the command line.
#[derive(Debug, Clone, Copy, PartialEq, Eq, Structural)]
pub enum CLIBoolean {
    Yes,
    No,
}

impl CLIBoolean {
    /// The answer as a `bool`: `Yes` is `true`, `No` is `false`.
    pub fn bool(&self) -> (r: bool)
        ensures
            r == (*self == CLIBoolean::Yes),
    {
        match self {
            CLIBoolean::Yes => true,
            CLIBoolean::No => false,
        }
    }
}

/// Commands that act on every manager.
#[derive(Debug, Clone, Copy, PartialEq, Eq, Structural)]
pub enum ManagerCommands {
    /// Sync all managers.
    Sync,
    /// Upgrade all managers, syncing first when `sync` is set.
    Upgrade { sync: bool },
    /// Remove everything except what the configuration names.
    RemoveOther,
}

/// Configuration commands.
#[derive(Debug, Clone, Copy, PartialEq, Eq, Structural)]
pub enum ConfigCommands {
    /// Create a default configuration.
    Init,
    /// Check the configuration for warnings and errors.
    Check,
}

/// Commands on the `current` generation.
#[derive(Debug, Clone, Copy, PartialEq, Eq, Structural)]
pub enum CurrentCommands {
    /// Build the `current` generation.
    Build,
    /// Move `current` back by a number of generations.
    Rollback(Rollback),
    /// Point `current` at the latest generation.
    ToLatest,
    /// Point `current` at a given generation.
    SetTo(SetCurrent),
}

/// Generation commands.
#[derive(Debug)]
pub enum GenCommands {
    /// Snapshot the user generation as a new generation and make it `current`.
    Commit(Commit),
    /// List all generations.
    List,
    /// Delete duplicate generations.
    CleanDups,
    /// Renumber generations to close gaps.
    Align,
    /// Clean up the generations.
    TidyUp,
    /// Show the user's generation.
    Info,
    /// Show the latest generation number.
    Latest,
    /// Delete the oldest generations.
    DeleteOld(GenDeleteOld),
    /// Delete one generation.
    Delete(GenDelete),
    /// Difference between two generations.
    Diff { old: usize, new: usize },
    /// Commands on the `current` generation.
    Current { command: CurrentCommands },
}

/// Arguments of `delete`.
#[derive(Debug, Clone, Copy, PartialEq, Eq, Structural)]
pub struct GenDelete {
    /// The generation to delete.
    pub generation: usize,
}

/// Arguments of `delete-old`.
#[derive(Debug, Clone, Copy, PartialEq, Eq, Structural)]
pub struct GenDeleteOld {
    /// How many generations to delete, starting at the oldest.
    pub how_many: usize,
}

/// Arguments of `commit`.
#[derive(Debug, Clone)]
pub struct Commit {
    /// The commit message shown when listing.
    pub msg: String,
}

/// Arguments of `current set`.
#[derive(Debug, Clone, Copy, PartialEq, Eq, Structural)]
pub struct SetCurrent {
    /// Generation to jump to.
    pub to: usize,
}

/// Arguments of `current rollback`.
#[derive(Debug, Clone, Copy, PartialEq, Eq, Structural)]
pub struct Rollback {
    /// How many generations to move back by (negative moves forward).
    pub by: isize,
}

} // verus!
