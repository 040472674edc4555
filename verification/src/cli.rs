use vstd::prelude::*;

use std::path::PathBuf;

verus! {

/// `std::path::PathBuf`, carried through unread.
#[verifier::external_type_specification]
#[verifier::external_body]
pub struct ExPathBuf(PathBuf);

/// The command line: an optional subcommand and an optional file to view.
pub struct Cli {
    pub command: Option<Command>,
    /// KML/KMZ file to view (launches TUI)
    pub file: Option<PathBuf>,
}

pub enum Command {
    /// Open file in TUI viewer
    View { file: PathBuf },
    /// Dump document metadata
    Info { file: PathBuf, format: OutputFormat },
    /// List all placemarks and folders
    List { file: PathBuf, format: OutputFormat },
    /// Print document structure as a tree
    Tree { file: PathBuf },
}

#[derive(Debug, Clone, Copy, PartialEq, Eq, Structural)]
pub enum OutputFormat {
    Json,
    Table,
}

/// The file that the command line names: the subcommand's file, or the bare
/// file argument when there is no subcommand.
pub open spec fn cli_file(cli: Cli) -> Option<PathBuf> {
    match cli.command {
        Some(Command::View { file }) => Some(file),
        Some(Command::Info { file, .. }) => Some(file),
        Some(Command::List { file, .. }) => Some(file),
        Some(Command::Tree { file }) => Some(file),
        None => cli.file,
    }
}

impl Cli {
    pub fn file_path(&self) -> (r: Option<&PathBuf>)
        ensures
            match r {
                Some(p) => cli_file(*self) == Some(*p),
                None => cli_file(*self).is_none(),
            },
    {
        match &self.command {
            Some(Command::View { file }) => Some(file),
            Some(Command::Info { file, .. }) => Some(file),
            Some(Command::List { file, .. }) => Some(file),
            Some(Command::Tree { file }) => Some(file),
            None => self.file.as_ref(),
        }
    }
}

/// What the program does for a command line.
#[derive(Debug, Clone, Copy, PartialEq, Eq, Structural)]
pub enum RunMode {
    /// Print the document metadata.
    Info,
    /// Print every placemark and folder.
    List,
    /// Print the document structure as a tree.
    Tree,
    /// Open the viewer (the `view` subcommand, or no subcommand).
    View,
}

pub open spec fn run_mode_of(cli: Cli) -> RunMode {
    match cli.command {
        Some(Command::Info { .. }) => RunMode::Info,
        Some(Command::List { .. }) => RunMode::List,
        Some(Command::Tree { .. }) => RunMode::Tree,
        _ => RunMode::View,
    }
}

impl Cli {
    pub fn run_mode(&self) -> (m: RunMode)
        ensures
            m == run_mode_of(*self),
    {
        match &self.command {
            Some(Command::Info { .. }) => RunMode::Info,
            Some(Command::List { .. }) => RunMode::List,
            Some(Command::Tree { .. }) => RunMode::Tree,
            _ => RunMode::View,
        }
    }
}

} // verus!
