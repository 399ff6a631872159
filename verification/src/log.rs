//! The result log: one record per executed (or skipped/not-started) command,
//! with status, cache classification, timing and output size.
use vstd::prelude::*;
use crate::command::{Command, Tag};
use crate::types::{CacheHit, ExecutionResult, ExecutionStatus};

verus! {

/// A named scalar measurement attached to a log record.
pub enum MeasurementValue {
    Int(i64),
    Str(String),
}

pub struct Measurement {
    pub key: String,
    pub value: MeasurementValue,
}

/// One persisted outcome record.
pub struct LogFileItem {
    pub name: String,
    /// The command's `Custom` tag labels, in tag order.
    pub tags: Vec<String>,
    pub status: ExecutionStatus,
    pub cache: Option<CacheHit>,
    /// Original execution duration in milliseconds, ignoring the cache.
    pub exec_ms: Option<u32>,
    /// Actual duration of processing in milliseconds, including caching and
    /// overheads.
    pub total_ms: Option<u32>,
    /// Total size of all output files and stdout/stderr, in bytes.
    pub output_size: Option<u64>,
    pub measurements: Vec<Measurement>,
}

impl LogFileItem {
    /// The time the original, non-cached execution would have cost, minus the
    /// time this cached run actually cost. Defined exactly when `cache`,
    /// `exec` and `total` are all present; may be negative when the cache
    /// overhead exceeded the savings.
    pub fn time_saved_by_cache(&self) -> (r: Option<i64>)
        ensures
            r == if self.cache is Some && self.exec_ms is Some && self.total_ms is Some {
                Some((self.exec_ms->0 as i64 - self.total_ms->0 as i64) as i64)
            } else {
                None::<i64>
            },
    {
        match (self.cache, self.exec_ms, self.total_ms) {
            (Some(_), Some(exec_ms), Some(total_ms)) => Some(exec_ms as i64 - total_ms as i64),
            _ => None,
        }
    }
}

/// The labels of the `Custom` tags among `tags`, in order.
pub open spec fn custom_tags(tags: Seq<Tag>) -> Seq<String>
    decreases tags.len(),
{
    if tags.len() == 0 {
        Seq::empty()
    } else {
        let rest = custom_tags(tags.drop_last());
        match tags.last() {
            Tag::Custom(s) => rest.push(s),
            _ => rest,
        }
    }
}

/// The ordered sequence of outcome records for one run.
pub struct LogFile {
    pub items: Vec<LogFileItem>,
}

impl LogFile {
    pub fn new() -> (r: LogFile)
        ensures
            r.items@.len() == 0,
    {
        LogFile { items: Vec::new() }
    }

    /// Appends one record for `command`, extracting its custom tags and
    /// recording whichever of the optional outcome fields are available.
    pub fn push(
        &mut self,
        command: &Command,
        execution_result: &ExecutionResult,
        output_size: Option<u64>,
        measurements: Vec<Measurement>,
    )
        ensures
            final(self).items@.len() == old(self).items@.len() + 1,
            final(self).items@.drop_last() == old(self).items@,
            final(self).items@.last().name == command.name,
            final(self).items@.last().tags@ == custom_tags(command.tags@),
            final(self).items@.last().status == execution_result.status,
            final(self).items@.last().cache == execution_result.cache_hit,
            final(self).items@.last().exec_ms == execution_result.exec_millis,
            final(self).items@.last().total_ms == execution_result.total_millis,
            final(self).items@.last().output_size == output_size,
            final(self).items@.last().measurements == measurements,
    {
        let mut tags: Vec<String> = Vec::new();
        let mut k: usize = 0;
        while k < command.tags.len()
            invariant
                k <= command.tags@.len(),
                tags@ == custom_tags(command.tags@.subrange(0, k as int)),
            decreases command.tags@.len() - k,
        {
            proof {
                assert(command.tags@.subrange(0, k as int + 1).drop_last() == command.tags@
                    .subrange(0, k as int));
                assert(command.tags@.subrange(0, k as int + 1).last() == command.tags@[k as int]);
            }
            match &command.tags[k] {
                Tag::Custom(s) => {
                    tags.push(s.clone());
                },
                _ => {},
            }
            k += 1;
        }
        proof {
            assert(command.tags@.subrange(0, command.tags@.len() as int) == command.tags@);
        }
        let item = LogFileItem {
            name: command.name.clone(),
            tags,
            status: execution_result.status,
            cache: execution_result.cache_hit,
            exec_ms: execution_result.exec_millis,
            total_ms: execution_result.total_millis,
            output_size,
            measurements,
        };
        self.items.push(item);
        proof {
            assert(self.items@.drop_last() == old(self).items@);
        }
    }

    /// Records a command that never executed. Only `NotStarted` and `Skipped`
    /// are meaningful for such a command; any other status is rejected.
    pub fn push_not_run(&mut self, command: &Command, status: ExecutionStatus)
        requires
            status == ExecutionStatus::NotStarted || status == ExecutionStatus::Skipped,
        ensures
            final(self).items@.len() == old(self).items@.len() + 1,
            final(self).items@.drop_last() == old(self).items@,
            final(self).items@.last().name == command.name,
            final(self).items@.last().tags@ == custom_tags(command.tags@),
            final(self).items@.last().status == status,
            final(self).items@.last().cache is None,
            final(self).items@.last().exec_ms is None,
            final(self).items@.last().total_ms is None,
            final(self).items@.last().output_size is None,
            final(self).items@.last().measurements@.len() == 0,
    {
        let result = ExecutionResult::not_run(status);
        self.push(command, &result, None, Vec::new());
    }
}

} // verus!
