//! The commands of the program and the decisions taken on their arguments:
//! which cleanup mode was asked for, which findings a cleanup targets, and
//! whether the user confirmed an execution.
use vstd::prelude::*;
use crate::error::SentinelError;
use crate::text::{chars_are, str_chars, trim, trim_chars};

verus! {

/// The parsed command line.
#[derive(Debug, Clone)]
pub struct Cli {
    /// An optional TOML configuration file.
    pub config: Option<String>,
    /// The command to run.
    pub command: Command,
}

/// The commands.
#[derive(Debug, Clone)]
pub enum Command {
    /// Scans a directory and lists the largest entries.
    Scan { path: String, limit: usize },
    /// Lists files of at least a size.
    Large { path: String, min_size: String, limit: usize },
    /// Lists development residue directories.
    Residue { path: String, limit: usize },
    /// Lists duplicate files with the copy to keep.
    Duplicates { path: String, limit: usize },
    /// Lists file types by the space they take.
    Types { path: String, limit: usize },
    /// Gives advice drawn from a scan.
    Insights { path: String, limit: usize },
    /// Writes a Markdown or JSON report.
    Export { path: String, format: String, output: Option<String> },
    /// Plans a cleanup and runs it dry or for real.
    Clean { path: String, dry_run: bool, execute: bool, yes: bool, target: String },
    /// Configuration commands.
    Config { command: ConfigCommand },
    /// Starts the terminal interface.
    Tui { path: String },
}

/// The configuration commands.
#[derive(Debug, Clone, Copy, PartialEq, Eq, Structural)]
pub enum ConfigCommand {
    /// Prints the default configuration.
    PrintDefault,
}

/// How a cleanup runs.
#[derive(Debug, Clone, Copy, PartialEq, Eq, Structural)]
pub enum CleanMode {
    /// Only report what would be moved.
    DryRun,
    /// Move the items to the trash directory.
    Execute,
}

/// The mode asked for by the `--dry-run` and `--execute` flags: exactly one
/// of them must be given.
pub fn clean_mode(dry_run: bool, execute: bool) -> (r: Result<CleanMode, SentinelError>)
    ensures
        dry_run && execute ==> r matches Err(SentinelError::ConflictingCleanMode),
        !dry_run && !execute ==> r matches Err(SentinelError::MissingCleanMode),
        dry_run && !execute ==> r == Ok::<CleanMode, SentinelError>(CleanMode::DryRun),
        !dry_run && execute ==> r == Ok::<CleanMode, SentinelError>(CleanMode::Execute),
{
    if dry_run && execute {
        Err(SentinelError::ConflictingCleanMode)
    } else if !dry_run && !execute {
        Err(SentinelError::MissingCleanMode)
    } else if dry_run {
        Ok(CleanMode::DryRun)
    } else {
        Ok(CleanMode::Execute)
    }
}

/// Which findings a cleanup acts on.
#[derive(Debug, Clone, Copy, PartialEq, Eq, Structural)]
pub enum CleanTarget {
    /// Development residue directories.
    Residue,
    /// Duplicate files proposed for removal.
    Duplicates,
}

/// The target a user names: `residue`, or `duplicates` (also `dups`).
pub open spec fn target_named(raw: Seq<char>) -> Option<CleanTarget> {
    if raw == "residue"@ {
        Some(CleanTarget::Residue)
    } else if raw == "duplicates"@ || raw == "dups"@ {
        Some(CleanTarget::Duplicates)
    } else {
        None
    }
}

impl CleanTarget {
    /// The target a user names, if any.
    pub fn parse(raw: &str) -> (r: Option<CleanTarget>)
        ensures
            r == target_named(raw@),
    {
        let chars = str_chars(raw);
        if chars_are(&chars, "residue") {
            Some(CleanTarget::Residue)
        } else if chars_are(&chars, "duplicates") || chars_are(&chars, "dups") {
            Some(CleanTarget::Duplicates)
        } else {
            None
        }
    }
}

/// Whether the answer to the confirmation prompt is `YES` (surrounding
/// whitespace ignored).
pub fn is_confirmed(input: &str) -> (r: bool)
    ensures
        r == (trim(input@) == "YES"@),
{
    let chars = str_chars(input);
    chars_are(&trim_chars(&chars), "YES")
}

} // verus!
