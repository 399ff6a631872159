//! Commands: units of work with declared input/output files, identified by an
//! arena-issued `CommandId`.
use vstd::prelude::*;
use crate::file::FileId;

verus! {

/// Typed handle into the command arena. Identifiers are dense, never reused
/// within a run, and valid only against the arena that issued them.
#[derive(Copy, Clone, Debug, PartialEq, Eq, Structural)]
pub struct CommandId {
    pub index: usize,
}

/// How a command is run: a process invocation, or a built-in task identified
/// by name.
pub enum Executor {
    Process { program: String, args: Vec<String> },
    Task { task: String, args: Vec<String> },
}

/// Categories attached to a command. Only `Custom` labels are carried into
/// the result log.
pub enum Tag {
    /// Arbitrary user-chosen label, reproduced in the result log.
    Custom(String),
    /// Reduce this command's presentation in the UI.
    Quiet,
    /// Expand this command's presentation in the UI.
    Verbose,
}

/// A unit of work. Immutable after creation; execution state is owned by the
/// scheduler, not stored here.
pub struct Command {
    pub id: CommandId,
    /// Human-readable identity, used in logs and the UI.
    pub name: String,
    pub tags: Vec<Tag>,
    /// Files this command reads. Order matters for cache-key computation.
    pub inputs: Vec<FileId>,
    /// Files this command produces.
    pub outputs: Vec<FileId>,
    pub executor: Executor,
}

} // verus!
