//! The commands the program understands, as plain values.  Parsing the
//! command line into them is the caller's part.
use vstd::prelude::*;

verus! {

/// A parsed command line.
pub struct Cli {
    pub command: Commands,
}

pub enum Commands {
    Workspace(WorkspaceArgs),
    Add(AddArgs),
    Ask(AskArgs),
    Report(ReportArgs),
}

pub struct WorkspaceArgs {
    pub command: WorkspaceCommand,
}

pub enum WorkspaceCommand {
    Create { name: String },
    Use { name: String },
    Show,
}

/// The document to add, by path.
pub struct AddArgs {
    pub path: String,
}

pub struct AskArgs {
    pub query: String,
}

pub struct ReportArgs {
    pub command: ReportCommand,
}

#[derive(Clone, Copy, Debug, PartialEq, Eq, Structural)]
pub enum ReportCommand {
    Summary,
    Compare,
    Outline,
}

} // verus!
