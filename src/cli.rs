//! The command line: subcommands and the settings that it may override.

use vstd::prelude::*;

verus! {

/// Settings given on the command line.
#[derive(Debug, Clone, PartialEq, Eq)]
pub struct CliConfig {
    pub database_url: Option<String>,
    pub migrations_dir: Option<String>,
    pub templates_dir: Option<String>,
    /// How many times the verbosity flag was repeated.
    pub v: Option<u8>,
    /// The logging level, when set outright.
    pub verbosity: Option<u8>,
}

/// The logging level that `config` asks for: the level set outright, else
/// one more than the number of repeated verbosity flags.
pub open spec fn verbosity_of(config: CliConfig) -> int {
    match config.verbosity {
        Some(v) => v as int,
        None => match config.v {
            Some(n) => 1 + n,
            None => 1,
        },
    }
}

impl CliConfig {
    /// The logging level: from 0 (silent) up; 1 by default.
    pub fn verbosity(&self) -> (r: u8)
        requires
            self.verbosity is None && self.v is Some ==> self.v->Some_0 < u8::MAX,
        ensures
            r as int == verbosity_of(*self),
    {
        if let Some(v) = self.verbosity {
            return v;
        }
        match self.v {
            Some(n) => 1 + n,
            None => 1,
        }
    }
}

/// Arguments of the subcommand that writes a new migration.
#[derive(Debug, Clone, PartialEq, Eq)]
pub struct New {
    /// The identifier; the current Unix time when absent.
    pub id: Option<i64>,
    /// A short name.
    pub name: String,
}

/// Arguments of the subcommand that pads identifiers to one width.
#[derive(Debug, Clone, PartialEq, Eq)]
pub struct AlignIds {
    /// Perform the renames, not only show them.
    pub execute: bool,
}

/// The subcommands.
#[derive(Debug, Clone, PartialEq, Eq)]
pub enum Cmd {
    /// Write the initial migration, which sets up the tracking table.
    Init,
    /// Write a new migration for editing.
    New(New),
    /// Apply every pending migration, in ascending order of identifier.
    Migrate,
    /// Reverse the migration applied last.
    Undo,
    /// Reverse, then apply again, the migration applied last.
    Redo,
    /// Show the status of each migration.
    Status,
    /// Pad identifiers in directory names to one width.
    AlignIds(AlignIds),
}

/// A parsed command line.
#[derive(Debug, Clone, PartialEq, Eq)]
pub struct Cli {
    pub command: Cmd,
    pub config: CliConfig,
}

} // verus!
