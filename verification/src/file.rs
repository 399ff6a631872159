//! Files known to the engine: each one is a node of the dependency graph,
//! identified by an arena-issued `FileId`.
use vstd::prelude::*;
use crate::command::CommandId;
use crate::types::BlobDigest;

verus! {

/// Typed handle into the file arena. Identifiers are dense, never reused
/// within a run, and valid only against the arena that issued them.
#[derive(Copy, Clone, Debug, PartialEq, Eq, Structural)]
pub struct FileId {
    pub index: usize,
}

/// One file path participating in the dependency graph.
pub struct File {
    pub id: FileId,
    /// Original textual form used on the command line, kept for diagnostics.
    pub arg: String,
    /// Resolved filesystem path to use when executing.
    pub path: String,
    /// Absent: a root input that must pre-exist. Present: the file is an
    /// output whose existence depends on that command succeeding. Immutable
    /// once set.
    pub creating_command: Option<CommandId>,
    /// Content digest, populated once the content is known.
    pub digest: Option<BlobDigest>,
}

} // verus!
