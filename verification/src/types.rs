//! Closed enumerations and plain records shared by the whole engine:
//! cache-hit classification, execution status, execution results and the
//! aggregate statistics of one run.
use vstd::prelude::*;

verus! {

/// Classification of how a command's result was satisfied without a full
/// re-execution. Absence of a `CacheHit` means the command actually ran.
#[derive(Copy, Clone, Debug, PartialEq, Eq, Structural)]
pub enum CacheHit {
    /// Action descriptor and all output blobs came from the local store.
    Local,
    /// Action descriptor and all output blobs came from the remote store.
    Remote,
    /// Action descriptor came from the local store, but at least one output
    /// blob had to be fetched remotely.
    Mixed,
}

/// Terminal state of one command attempt.
#[derive(Copy, Clone, Debug, PartialEq, Eq, Structural)]
pub enum ExecutionStatus {
    /// The command was never dispatched.
    NotStarted,
    /// The command never ran because a prerequisite did not succeed.
    Skipped,
    Success,
    Failed,
}

/// A fixed-size content hash identifying file or action content, used as a
/// cache/identity key.
#[derive(Copy, Clone, Debug, PartialEq, Eq, Structural)]
pub struct BlobDigest {
    pub hash: u64,
    pub size_bytes: u64,
}

/// Outcome of one command attempt. Created fresh per attempt, consumed by the
/// scheduler (statistics) and the result log; not retained after logging.
pub struct ExecutionResult {
    pub status: ExecutionStatus,
    pub cache_hit: Option<CacheHit>,
    /// Wall time of the actual process execution in milliseconds, excluding
    /// cache lookup and overhead; absent when served from cache or not run.
    pub exec_millis: Option<u32>,
    /// Wall time including all overhead, in milliseconds.
    pub total_millis: Option<u32>,
    pub exit_code: Option<i32>,
    /// Human-readable failure description.
    pub error: Option<String>,
    pub stdout: Vec<u8>,
    pub stderr: Vec<u8>,
}

impl ExecutionResult {
    /// A result for a command that never executed: only the status is set.
    pub fn not_run(status: ExecutionStatus) -> (r: ExecutionResult)
        ensures
            r.status == status,
            r.cache_hit is None,
            r.exec_millis is None,
            r.total_millis is None,
            r.exit_code is None,
            r.error is None,
            r.stdout@ == Seq::<u8>::empty(),
            r.stderr@ == Seq::<u8>::empty(),
    {
        ExecutionResult {
            status,
            cache_hit: None,
            exec_millis: None,
            total_millis: None,
            exit_code: None,
            error: None,
            stdout: Vec::new(),
            stderr: Vec::new(),
        }
    }
}

/// Counters over the terminal states reached during one run.
#[derive(Copy, Clone, Debug, PartialEq, Eq, Structural)]
pub struct ExecStats {
    pub succeeded: u64,
    pub failed: u64,
    /// Commands recorded as `Skipped` or `NotStarted`.
    pub not_run: u64,
}

/// Aggregate counters derived from a run, used for end-of-run reporting.
#[derive(Copy, Clone, Debug, PartialEq, Eq, Structural)]
pub struct SchedulerStats {
    pub execution: ExecStats,
    pub cache_hits: u64,
}

impl SchedulerStats {
    pub fn zero() -> (r: SchedulerStats)
        ensures
            r == (SchedulerStats {
                execution: ExecStats { succeeded: 0, failed: 0, not_run: 0 },
                cache_hits: 0,
            }),
    {
        SchedulerStats {
            execution: ExecStats { succeeded: 0, failed: 0, not_run: 0 },
            cache_hits: 0,
        }
    }
}

} // verus!
