//! The scheduler: owns the execution queue, computes a dependency-respecting
//! order (rejecting cyclic graphs before anything runs), dispatches runnable
//! commands, consults the cache, propagates skips, and collects statistics
//! and log records.
use vstd::prelude::*;
use crate::cache::{classified_outputs, clone_digests, executor_matches, key_matches, spec_classify, Cache, CacheKey};
use crate::command::{CommandId, Executor};
use crate::log::{LogFile, Measurement};
use crate::registry::{dep_edges_seq, resolved_digests, Registry};
use crate::types::{BlobDigest, CacheHit, ExecStats, ExecutionResult, ExecutionStatus, SchedulerStats};

verus! {

/// Per-command scheduling state: `NotStarted -> {Skipped | Running ->
/// {Success | Failed}}`, with `Waiting` as the not-yet-dispatched state.
#[derive(Copy, Clone, Debug, PartialEq, Eq, Structural)]
pub enum CmdState {
    Waiting,
    Running,
    Done(ExecutionStatus),
}

/// Fatal graph errors, reported by `start` before any execution begins.
pub enum SchedulingError {
    /// The dependency edges among the queued commands contain a cycle; the
    /// commands that could not be ordered are named.
    CyclicDependency { involved: Vec<CommandId> },
}

/// What the driver of a run should do next.
pub enum NextAction {
    /// Dispatch this command's executor; report back via `record_execution`.
    Execute(CommandId),
    /// The command was skipped because a prerequisite was unavailable.
    Skipped(CommandId),
    /// The command was satisfied from the cache without executing.
    Cached(CommandId, CacheHit),
    /// Nothing can be dispatched until an outstanding result is recorded.
    Wait,
    /// Every queued command has been dispatched or resolved.
    Finished,
}

/// The dependency edges of command `c`: the creating commands of its inputs.
pub open spec fn dep_ids(reg: Registry, c: CommandId) -> Seq<CommandId> {
    dep_edges_seq(reg.spec_files(), reg.spec_commands()[c.index as int].inputs@)
}

/// A rank function witnessing acyclicity: along every dependency edge among
/// queued commands, the rank strictly decreases.
pub open spec fn rank_respects_edges(
    reg: Registry,
    queue: Seq<CommandId>,
    rank: Map<int, nat>,
) -> bool {
    forall|a: CommandId, b: CommandId|
        queue.contains(a) && queue.contains(b) && #[trigger] dep_ids(reg, a).contains(b)
            ==> rank[b.index as int] < rank[a.index as int]
}

/// The dependency edges among the queued commands contain no cycle: some
/// rank function decreases along every edge. A cycle would force an infinite
/// strict descent, which `nat` forbids; conversely a topological order
/// yields such a rank.
pub open spec fn acyclic(reg: Registry, queue: Seq<CommandId>) -> bool {
    exists|rank: Map<int, nat>| rank_respects_edges(reg, queue, rank)
}

pub struct Scheduler {
    /// Commands to run, enqueued before `start`.
    pub queue: Vec<CommandId>,
    pub started: bool,
    /// Topological order over `queue`, computed by `start`.
    pub order: Vec<CommandId>,
    /// Position in `order` of the next command to consider.
    pub next_idx: usize,
    /// Scheduling state per registry command (indexed by `CommandId`).
    pub states: Vec<CmdState>,
    pub stats: SchedulerStats,
    pub log: LogFile,
    pub cache: Cache,
}

impl Scheduler {
    /// Every dependency of `c` is queued and has succeeded.
    pub open spec fn dep_ok(self, reg: Registry, c: CommandId) -> bool {
        forall|m: int|
            0 <= m < dep_ids(reg, c).len() ==> self.queue@.contains(#[trigger] dep_ids(reg, c)[m])
                && dep_ids(reg, c)[m].index < self.states@.len() && self.states@[dep_ids(
                reg,
                c,
            )[m].index as int] == CmdState::Done(ExecutionStatus::Success)
    }

    /// Some dependency of `c` can never succeed in this run: it is not
    /// queued at all, or it reached a terminal state other than `Success`.
    pub open spec fn dep_blocked(self, reg: Registry, c: CommandId) -> bool {
        exists|m: int|
            0 <= m < dep_ids(reg, c).len() && (!self.queue@.contains(
                #[trigger] dep_ids(reg, c)[m],
            ) || (dep_ids(reg, c)[m].index < self.states@.len() && match self.states@[dep_ids(
                reg,
                c,
            )[m].index as int] {
                CmdState::Done(st) => st != ExecutionStatus::Success,
                _ => false,
            }))
    }

    /// Some command has been dispatched but its outcome is not yet recorded.
    pub open spec fn has_running(self) -> bool {
        exists|i: int| 0 <= i < self.states@.len() && (#[trigger] self.states@[i]) is Running
    }

    /// The scheduler's invariant against the registry it was started on.
    pub open spec fn wf(self, reg: Registry) -> bool {
        &&& reg.wf()
        &&& forall|k: int|
            0 <= k < self.queue@.len() ==> (#[trigger] self.queue@[k]).index
                < reg.spec_commands().len()
        &&& forall|k1: int, k2: int|
            0 <= k1 < k2 < self.queue@.len() ==> self.queue@[k1] != self.queue@[k2]
        &&& if !self.started {
            self.states@.len() == 0 && self.order@.len() == 0 && self.next_idx == 0
        } else {
            &&& self.states@.len() == reg.spec_commands().len()
            &&& self.order@.len() == self.queue@.len()
            &&& forall|c: CommandId| self.order@.contains(c) <==> self.queue@.contains(c)
            &&& forall|p1: int, p2: int|
                0 <= p1 < p2 < self.order@.len() ==> self.order@[p1] != self.order@[p2]
            &&& self.next_idx <= self.order@.len()
            &&& forall|p: int, q: int|
                #![trigger dep_ids(reg, self.order@[p]).contains(self.order@[q])]
                0 <= p <= q < self.order@.len() ==> !dep_ids(reg, self.order@[p]).contains(
                    self.order@[q],
                )
            &&& forall|p: int|
                0 <= p < self.next_idx ==> !((#[trigger] self.states@[self.order@[p].index as int])
                    is Waiting)
            &&& forall|p: int|
                self.next_idx <= p < self.order@.len()
                    ==> (#[trigger] self.states@[self.order@[p].index as int]) is Waiting
            &&& forall|i: usize|
                i < self.states@.len() && !((#[trigger] self.states@[i as int]) is Waiting)
                    ==> self.queue@.contains(CommandId { index: i })
            &&& forall|i: int|
                0 <= i < self.states@.len() ==> match #[trigger] self.states@[i] {
                    CmdState::Done(st) => st != ExecutionStatus::NotStarted,
                    _ => true,
                }
            &&& forall|i: usize|
                i < self.states@.len() && ((#[trigger] self.states@[i as int]) is Running
                    || self.states@[i as int] == CmdState::Done(ExecutionStatus::Success)
                    || self.states@[i as int] == CmdState::Done(ExecutionStatus::Failed))
                    ==> self.dep_ok(reg, CommandId { index: i })
            &&& forall|i: usize|
                i < self.states@.len() && (#[trigger] self.states@[i as int]) == CmdState::Done(
                    ExecutionStatus::Skipped,
                ) ==> self.dep_blocked(reg, CommandId { index: i })
        }
    }

    pub fn new() -> (s: Scheduler)
        ensures
            !s.started,
            s.queue@.len() == 0,
            s.order@.len() == 0,
            s.next_idx == 0,
            s.states@.len() == 0,
            s.stats == (SchedulerStats {
                execution: ExecStats { succeeded: 0, failed: 0, not_run: 0 },
                cache_hits: 0,
            }),
            s.log.items@.len() == 0,
            s.cache.local_actions@.len() == 0,
            s.cache.local_blobs@.len() == 0,
            s.cache.remote_actions@.len() == 0,
            s.cache.remote_blobs@.len() == 0,
            !s.cache.remote_enabled,
            forall|reg: Registry| reg.wf() ==> s.wf(reg),
    {
        Scheduler {
            queue: Vec::new(),
            started: false,
            order: Vec::new(),
            next_idx: 0,
            states: Vec::new(),
            stats: SchedulerStats::zero(),
            log: LogFile::new(),
            cache: Cache::new(false),
        }
    }

    /// Enqueues a command for the coming run; legal only before `start`.
    pub fn push(&mut self, command: CommandId)
        requires
            !old(self).started,
            !old(self).queue@.contains(command),
        ensures
            final(self).queue@ == old(self).queue@.push(command),
            *final(self) == (Scheduler { queue: final(self).queue, ..*old(self) }),
    {
        self.queue.push(command);
    }

    /// Computes a topological order over the queued commands. Fails with a
    /// `CyclicDependency` error naming the unorderable commands — and leaves
    /// every command untouched, nothing having executed — exactly when the
    /// dependency edges among the queued commands contain a cycle.
    #[verifier::loop_isolation(false)]
    #[verifier::rlimit(100)]
    #[verifier::spinoff_prover]
    pub fn start(&mut self, reg: &Registry) -> (r: Result<(), SchedulingError>)
        requires
            old(self).wf(*reg),
            !old(self).started,
        ensures
            r is Ok <==> acyclic(*reg, old(self).queue@),
            r is Err ==> {
                &&& final(self).queue == old(self).queue
                &&& final(self).order == old(self).order
                &&& final(self).states == old(self).states
                &&& final(self).next_idx == old(self).next_idx
                &&& final(self).started == old(self).started
                &&& final(self).stats == old(self).stats
                &&& final(self).cache == old(self).cache
                // nothing executed; every queued command is recorded in the
                // log as never started
                &&& final(self).log.items@.len() == old(self).log.items@.len() + old(
                    self,
                ).queue@.len()
                &&& final(self).log.items@.subrange(0, old(self).log.items@.len() as int) == old(
                    self,
                ).log.items@
                &&& forall|k: int|
                    0 <= k < old(self).queue@.len() ==> {
                        let it = final(self).log.items@[old(self).log.items@.len() + k];
                        it.name == reg.spec_commands()[(#[trigger] old(
                            self,
                        ).queue@[k]).index as int].name && it.status == ExecutionStatus::NotStarted
                            && it.cache is None && it.exec_ms is None && it.total_ms is None
                            && it.output_size is None
                    }
            },
            r matches Err(e) ==> match e {
                SchedulingError::CyclicDependency { involved } => involved@.len() > 0 && forall|
                    k: int,
                |
                    0 <= k < involved@.len() ==> old(self).queue@.contains(#[trigger] involved@[k]),
            },
            r is Ok ==> {
                &&& final(self).wf(*reg)
                &&& final(self).started
                &&& final(self).queue == old(self).queue
                &&& final(self).next_idx == 0
                &&& forall|i: int|
                    0 <= i < final(self).states@.len() ==> (#[trigger] final(self).states@[i])
                        is Waiting
                &&& final(self).stats == old(self).stats
                &&& final(self).log == old(self).log
                &&& final(self).cache == old(self).cache
            },
    {
        let n = reg.command_count();
        let mut placed: Vec<bool> = Vec::new();
        let mut j: usize = 0;
        while j < n
            invariant
                j <= n,
                placed@.len() == j,
                forall|i: int| 0 <= i < j ==> !(#[trigger] placed@[i]),
            decreases n - j,
        {
            placed.push(false);
            j += 1;
        }
        let mut order: Vec<CommandId> = Vec::new();
        while order.len() < self.queue.len()
            invariant
                *self == *old(self),
                placed@.len() == reg.spec_commands().len(),
                order@.len() <= self.queue@.len(),
                ordering_inv(*reg, self.queue@, order@, placed@),
            decreases self.queue@.len() - order@.len(),
        {
            match find_eligible(reg, &self.queue, &placed) {
                Some(kk) => {
                    let c = self.queue[kk];
                    let ghost order_before = order@;
                    let ghost placed_before = placed@;
                    placed.set(c.index, true);
                    order.push(c);
                    proof {
                        lemma_place_step(
                            *reg,
                            self.queue@,
                            order_before,
                            placed_before,
                            order@,
                            placed@,
                            c,
                        );
                    }
                },
                None => {
                    // stalled: every queued, unplaced command waits on a
                    // queued, unplaced dependency — a cycle
                    let involved = collect_unplaced(&self.queue, &placed);
                    proof {
                        lemma_stall_not_acyclic(*reg, self.queue@, placed@, order@, involved@);
                    }
                    let ghost log_before = self.log.items@;
                    let mut kq: usize = 0;
                    while kq < self.queue.len()
                        invariant
                            kq <= self.queue@.len(),
                            self.queue == old(self).queue,
                            self.order == old(self).order,
                            self.states == old(self).states,
                            self.next_idx == old(self).next_idx,
                            self.started == old(self).started,
                            self.stats == old(self).stats,
                            self.cache == old(self).cache,
                            self.log.items@.len() == log_before.len() + kq,
                            self.log.items@.subrange(0, log_before.len() as int) == log_before,
                            forall|k2: int|
                                0 <= k2 < kq ==> {
                                    let it = self.log.items@[log_before.len() + k2];
                                    it.name == reg.spec_commands()[(#[trigger] self.queue@[
                                        k2
                                    ]).index as int].name && it.status
                                        == ExecutionStatus::NotStarted && it.cache is None
                                        && it.exec_ms is None && it.total_ms is None
                                        && it.output_size is None
                                },
                        decreases self.queue@.len() - kq,
                    {
                        let cid = self.queue[kq];
                        let command = reg.command(cid);
                        let ghost items_pre = self.log.items@;
                        self.log.push_not_run(command, ExecutionStatus::NotStarted);
                        proof {
                            assert(self.log.items@.drop_last() == items_pre);
                            assert(self.log.items@.subrange(0, log_before.len() as int)
                                =~= log_before);
                            assert forall|k2: int| 0 <= k2 < kq + 1 implies {
                                let it = self.log.items@[log_before.len() + k2];
                                it.name == reg.spec_commands()[(#[trigger] self.queue@[
                                    k2
                                ]).index as int].name && it.status == ExecutionStatus::NotStarted
                                    && it.cache is None && it.exec_ms is None && it.total_ms
                                    is None && it.output_size is None
                            } by {
                                if k2 < kq {
                                    assert(self.log.items@[log_before.len() + k2] == items_pre[
                                        log_before.len() + k2]);
                                } else {
                                    assert(self.log.items@[log_before.len() + k2] == self.log
                                        .items@.last());
                                }
                            }
                        }
                        kq += 1;
                    }
                    return Err(SchedulingError::CyclicDependency { involved });
                },
            }
        }
        proof {
            lemma_complete_order(*reg, self.queue@, order@);
        }
        let mut states: Vec<CmdState> = Vec::new();
        let mut j2: usize = 0;
        while j2 < n
            invariant
                j2 <= n,
                states@.len() == j2,
                forall|i: int| 0 <= i < j2 ==> (#[trigger] states@[i]) is Waiting,
            decreases n - j2,
        {
            states.push(CmdState::Waiting);
            j2 += 1;
        }
        self.order = order;
        self.states = states;
        self.next_idx = 0;
        self.started = true;
        Ok(())
    }
}

/// The invariant of the order being grown by `start`: its entries are
/// distinct queued commands, `placed` marks exactly the ordered ones, and
/// every queued dependency of an ordered command is ordered earlier.
pub open spec fn ordering_inv(
    reg: Registry,
    queue: Seq<CommandId>,
    order: Seq<CommandId>,
    placed: Seq<bool>,
) -> bool {
    &&& forall|p: int| 0 <= p < order.len() ==> queue.contains(#[trigger] order[p])
    &&& forall|p1: int, p2: int| 0 <= p1 < p2 < order.len() ==> order[p1] != order[p2]
    &&& forall|i: usize|
        i < placed.len() ==> ((#[trigger] placed[i as int]) <==> order.contains(
            CommandId { index: i },
        ))
    &&& forall|p: int, m: int|
        0 <= p < order.len() && 0 <= m < dep_ids(reg, order[p]).len() && queue.contains(
            #[trigger] dep_ids(reg, order[p])[m],
        ) ==> exists|q: int| 0 <= q < p && order[q] == dep_ids(reg, order[p])[m]
}

/// Finds a queued, unplaced command whose queued dependencies are all
/// placed; `None` means every queued, unplaced command has a queued,
/// unplaced dependency.
#[verifier::loop_isolation(false)]
#[verifier::spinoff_prover]
fn find_eligible(reg: &Registry, queue: &Vec<CommandId>, placed: &Vec<bool>) -> (r: Option<usize>)
    requires
        reg.wf(),
        forall|k: int|
            0 <= k < queue@.len() ==> (#[trigger] queue@[k]).index < reg.spec_commands().len(),
        placed@.len() == reg.spec_commands().len(),
    ensures
        r matches Some(kk) ==> kk < queue@.len() && !placed@[queue@[kk as int].index as int]
            && forall|m: int|
            0 <= m < dep_ids(*reg, queue@[kk as int]).len() && queue@.contains(
                #[trigger] dep_ids(*reg, queue@[kk as int])[m],
            ) ==> placed@[dep_ids(*reg, queue@[kk as int])[m].index as int],
        r is None ==> forall|k2: int|
            0 <= k2 < queue@.len() && !placed@[(#[trigger] queue@[k2]).index as int] ==> exists|
                m: int,
            |
                0 <= m < dep_ids(*reg, queue@[k2]).len() && queue@.contains(
                    #[trigger] dep_ids(*reg, queue@[k2])[m],
                ) && !placed@[dep_ids(*reg, queue@[k2])[m].index as int],
{
    let mut k: usize = 0;
    while k < queue.len()
        invariant
            k <= queue@.len(),
            forall|k2: int|
                0 <= k2 < k && !placed@[(#[trigger] queue@[k2]).index as int] ==> exists|m: int|
                    0 <= m < dep_ids(*reg, queue@[k2]).len() && queue@.contains(
                        #[trigger] dep_ids(*reg, queue@[k2])[m],
                    ) && !placed@[dep_ids(*reg, queue@[k2])[m].index as int],
        decreases queue@.len() - k,
    {
        let c = queue[k];
        if !placed[c.index] {
            let deps = reg.dependency_edges(c);
            let mut all_placed = true;
            let mut m: usize = 0;
            while m < deps.len()
                invariant
                    m <= deps@.len(),
                    deps@ == dep_ids(*reg, c),
                    c == queue@[k as int],
                    k < queue@.len(),
                    all_placed ==> forall|m2: int|
                        0 <= m2 < m && queue@.contains(#[trigger] deps@[m2])
                            ==> placed@[deps@[m2].index as int],
                    !all_placed ==> exists|m2: int|
                        0 <= m2 < m && queue@.contains(#[trigger] deps@[m2])
                            && !placed@[deps@[m2].index as int],
                decreases deps@.len() - m,
            {
                let d = deps[m];
                if queue_contains(queue, d) {
                    proof {
                        let kk = choose|kk: int| 0 <= kk < queue@.len() && queue@[kk] == d;
                        assert(queue@[kk].index < reg.spec_commands().len());
                    }
                    if !placed[d.index] {
                        all_placed = false;
                    }
                }
                m += 1;
            }
            if all_placed {
                return Some(k);
            }
        }
        k += 1;
    }
    None
}

/// The queued commands not yet placed.
#[verifier::loop_isolation(false)]
fn collect_unplaced(queue: &Vec<CommandId>, placed: &Vec<bool>) -> (involved: Vec<CommandId>)
    requires
        forall|k: int| 0 <= k < queue@.len() ==> (#[trigger] queue@[k]).index < placed@.len(),
    ensures
        forall|p: int| 0 <= p < involved@.len() ==> queue@.contains(#[trigger] involved@[p]),
        involved@.len() == 0 ==> forall|p: int|
            0 <= p < queue@.len() ==> placed@[(#[trigger] queue@[p]).index as int],
{
    let mut involved: Vec<CommandId> = Vec::new();
    let mut k2: usize = 0;
    while k2 < queue.len()
        invariant
            k2 <= queue@.len(),
            forall|p: int| 0 <= p < involved@.len() ==> queue@.contains(#[trigger] involved@[p]),
            involved@.len() == 0 ==> forall|p: int|
                0 <= p < k2 ==> placed@[(#[trigger] queue@[p]).index as int],
        decreases queue@.len() - k2,
    {
        let c = queue[k2];
        if !placed[c.index] {
            involved.push(c);
        }
        k2 += 1;
    }
    involved
}

/// Appending an eligible command (queued, unplaced, queued dependencies all
/// placed) preserves the ordering invariant.
#[verifier::rlimit(100)]
#[verifier::spinoff_prover]
proof fn lemma_place_step(
    reg: Registry,
    queue: Seq<CommandId>,
    order_before: Seq<CommandId>,
    placed_before: Seq<bool>,
    order: Seq<CommandId>,
    placed: Seq<bool>,
    c: CommandId,
)
    requires
        ordering_inv(reg, queue, order_before, placed_before),
        forall|k: int|
            0 <= k < queue.len() ==> (#[trigger] queue[k]).index < placed_before.len(),
        queue.contains(c),
        c.index < placed_before.len(),
        !placed_before[c.index as int],
        forall|m: int|
            0 <= m < dep_ids(reg, c).len() && queue.contains(#[trigger] dep_ids(reg, c)[m])
                ==> placed_before[dep_ids(reg, c)[m].index as int],
        order == order_before.push(c),
        placed == placed_before.update(c.index as int, true),
    ensures
        ordering_inv(reg, queue, order, placed),
{
    assert forall|i: usize|
        i < placed.len() implies ((#[trigger] placed[i as int]) <==> order.contains(
        CommandId { index: i },
    )) by {
        if i == c.index {
            assert(order[order.len() - 1] == c);
            assert(order.contains(c));
            assert(c == CommandId { index: i });
        } else {
            assert(placed[i as int] == placed_before[i as int]);
            if order.contains(CommandId { index: i }) {
                let q = choose|q: int|
                    0 <= q < order.len() && order[q] == CommandId { index: i };
                assert(order[order.len() - 1] == c);
                if q == order.len() - 1 {
                    assert(CommandId { index: i } == c);
                }
                assert(q < order.len() - 1);
                assert(order_before[q] == order[q]);
                assert(order_before.contains(CommandId { index: i }));
            } else {
                if order_before.contains(CommandId { index: i }) {
                    let q = choose|q: int|
                        0 <= q < order_before.len() && order_before[q] == CommandId { index: i };
                    assert(order[q] == order_before[q]);
                    assert(order.contains(CommandId { index: i }));
                }
            }
        }
    }
    assert forall|p: int, m: int|
        0 <= p < order.len() && 0 <= m < dep_ids(reg, order[p]).len() && queue.contains(
            #[trigger] dep_ids(reg, order[p])[m],
        ) implies exists|q: int| 0 <= q < p && order[q] == dep_ids(reg, order[p])[m] by {
        let d = dep_ids(reg, order[p])[m];
        if p < order.len() - 1 {
            assert(order_before[p] == order[p]);
            let q = choose|q: int|
                0 <= q < p && order_before[q] == dep_ids(reg, order_before[p])[m];
            assert(order[q] == d);
        } else {
            // the appended command: its queued deps were already placed,
            // hence in the earlier order
            assert(order[p] == c);
            assert(dep_ids(reg, c)[m] == d);
            assert(queue.contains(dep_ids(reg, c)[m]));
            assert(placed_before[dep_ids(reg, c)[m].index as int]);
            assert(placed_before[d.index as int]);
            let kq = choose|kq: int| 0 <= kq < queue.len() && queue[kq] == d;
            assert((queue[kq]).index < placed_before.len());
            assert(d.index != c.index);
            assert(order_before.contains(CommandId { index: d.index }));
            let q = choose|q: int|
                0 <= q < order_before.len() && order_before[q] == CommandId { index: d.index };
            assert(order[q] == CommandId { index: d.index });
            assert(CommandId { index: d.index } == d);
            assert(q < p);
        }
    }
}

/// A complete order over the queue is a topological order and witnesses
/// acyclicity.
#[verifier::rlimit(100)]
#[verifier::spinoff_prover]
proof fn lemma_complete_order(reg: Registry, queue: Seq<CommandId>, order: Seq<CommandId>)
    requires
        forall|k1: int, k2: int| 0 <= k1 < k2 < queue.len() ==> queue[k1] != queue[k2],
        order.len() == queue.len(),
        forall|p: int| 0 <= p < order.len() ==> queue.contains(#[trigger] order[p]),
        forall|p1: int, p2: int| 0 <= p1 < p2 < order.len() ==> order[p1] != order[p2],
        forall|p: int, m: int|
            0 <= p < order.len() && 0 <= m < dep_ids(reg, order[p]).len() && queue.contains(
                #[trigger] dep_ids(reg, order[p])[m],
            ) ==> exists|q: int| 0 <= q < p && order[q] == dep_ids(reg, order[p])[m],
    ensures
        acyclic(reg, queue),
        forall|c: CommandId| order.contains(c) <==> queue.contains(c),
        forall|p: int, q: int|
            #![trigger dep_ids(reg, order[p]).contains(order[q])]
            0 <= p <= q < order.len() ==> !dep_ids(reg, order[p]).contains(order[q]),
{
    assert forall|c: CommandId| order.contains(c) <==> queue.contains(c) by {
        if queue.contains(c) {
            lemma_full_order_contains(order, queue, c);
        }
    }
    assert forall|p: int, q: int|
        #![trigger dep_ids(reg, order[p]).contains(order[q])]
        0 <= p <= q < order.len() implies !dep_ids(reg, order[p]).contains(order[q]) by {
        if dep_ids(reg, order[p]).contains(order[q]) {
            let m = choose|m: int|
                0 <= m < dep_ids(reg, order[p]).len() && dep_ids(reg, order[p])[m] == order[q];
            assert(queue.contains(order[q]));
            assert(queue.contains(dep_ids(reg, order[p])[m]));
            let q2 = choose|q2: int| 0 <= q2 < p && order[q2] == dep_ids(reg, order[p])[m];
            assert(order[q2] == order[q]);
            if q2 < q {
                assert(order[q2] != order[q]);
            }
        }
    }
    let rank = Map::<int, nat>::new(|i: int| true, |i: int| order_position(order, i));
    assert forall|a: CommandId, b: CommandId|
        queue.contains(a) && queue.contains(b) && #[trigger] dep_ids(reg, a).contains(
            b,
        ) implies rank[b.index as int] < rank[a.index as int] by {
        assert(order.contains(a));
        let pa = choose|p: int| 0 <= p < order.len() && order[p] == a;
        let m = choose|m: int| 0 <= m < dep_ids(reg, a).len() && dep_ids(reg, a)[m] == b;
        assert(order[pa] == a);
        assert(dep_ids(reg, order[pa])[m] == b);
        assert(queue.contains(dep_ids(reg, order[pa])[m]));
        assert(exists|q: int| 0 <= q < pa && order[q] == dep_ids(reg, order[pa])[m]);
        let q = choose|q: int| 0 <= q < pa && order[q] == dep_ids(reg, order[pa])[m];
        lemma_order_position(order, a, pa);
        lemma_order_position(order, b, q);
    }
    assert(rank_respects_edges(reg, queue, rank));
}

/// Whether the queue holds `c`.
fn queue_contains(queue: &Vec<CommandId>, c: CommandId) -> (r: bool)
    ensures
        r == queue@.contains(c),
{
    let mut k: usize = 0;
    while k < queue.len()
        invariant
            k <= queue@.len(),
            forall|m: int| 0 <= m < k ==> queue@[m] != c,
        decreases queue@.len() - k,
    {
        if queue[k] == c {
            return true;
        }
        k += 1;
    }
    false
}

/// Whether any state is `Running`.
fn any_running(states: &Vec<CmdState>) -> (r: bool)
    ensures
        r == (exists|i: int| 0 <= i < states@.len() && (#[trigger] states@[i]) is Running),
{
    let mut k: usize = 0;
    while k < states.len()
        invariant
            k <= states@.len(),
            forall|m: int| 0 <= m < k ==> !((#[trigger] states@[m]) is Running),
        decreases states@.len() - k,
    {
        match states[k] {
            CmdState::Running => {
                return true;
            },
            _ => {},
        }
        k += 1;
    }
    false
}

/// A miss (or an unusable stored entry) for one key carrying a command's
/// executor and resolved input digests is a miss for every such key: the
/// classification depends on the key only through its views.
proof fn lemma_miss_congruent(cache: Cache, key: CacheKey, reg: Registry, c: CommandId, n: int)
    requires
        executor_matches(key.executor, reg.spec_commands()[c.index as int].executor),
        resolved_digests(reg.spec_files(), reg.spec_commands()[c.index as int].inputs@) == Some(
            key.input_digests@,
        ),
        spec_classify(cache, key) is None || classified_outputs(spec_classify(cache, key)).len()
            != n,
    ensures
        forall|key2: CacheKey|
            executor_matches(
                #[trigger] key2.executor,
                reg.spec_commands()[c.index as int].executor,
            ) && resolved_digests(reg.spec_files(), reg.spec_commands()[c.index as int].inputs@)
                == Some(key2.input_digests@) ==> (spec_classify(cache, key2) is None
                || classified_outputs(spec_classify(cache, key2)).len() != n),
{
    assert forall|key2: CacheKey|
        executor_matches(
            #[trigger] key2.executor,
            reg.spec_commands()[c.index as int].executor,
        ) && resolved_digests(reg.spec_files(), reg.spec_commands()[c.index as int].inputs@)
            == Some(key2.input_digests@) implies (spec_classify(cache, key2) is None
        || classified_outputs(spec_classify(cache, key2)).len() != n) by {
        assert(key.input_digests@ == key2.input_digests@);
        assert(executor_matches(key.executor, key2.executor));
        assert(key_matches(key, key2));
        crate::cache::lemma_classify_congruent(cache, key, key2);
    }
}

/// The position of the command with arena index `i` in `order`, or 0 when it
/// does not occur.
pub open spec fn order_position(order: Seq<CommandId>, i: int) -> nat {
    if exists|p: int| 0 <= p < order.len() && order[p].index == i {
        (choose|p: int| 0 <= p < order.len() && order[p].index == i) as nat
    } else {
        0
    }
}

/// In a duplicate-free order, `order_position` gives the unique position.
proof fn lemma_order_position(order: Seq<CommandId>, c: CommandId, p: int)
    requires
        forall|p1: int, p2: int| 0 <= p1 < p2 < order.len() ==> order[p1] != order[p2],
        0 <= p < order.len(),
        order[p] == c,
    ensures
        order_position(order, c.index as int) == p,
{
    assert(exists|q: int| 0 <= q < order.len() && order[q].index == c.index);
    let q = choose|q: int| 0 <= q < order.len() && order[q].index == c.index;
    assert(order[q] == CommandId { index: order[q].index });
    assert(order[q] == c);
    if q < p {
        assert(order[q] != order[p]);
    } else if p < q {
        assert(order[p] != order[q]);
    }
}

/// A duplicate-free sequence drawn from a duplicate-free pool of the same
/// length holds every element of the pool.
proof fn lemma_full_order_contains(order: Seq<CommandId>, queue: Seq<CommandId>, c: CommandId)
    requires
        order.len() == queue.len(),
        forall|p: int| 0 <= p < order.len() ==> queue.contains(#[trigger] order[p]),
        forall|p1: int, p2: int| 0 <= p1 < p2 < order.len() ==> order[p1] != order[p2],
        forall|k1: int, k2: int| 0 <= k1 < k2 < queue.len() ==> queue[k1] != queue[k2],
        queue.contains(c),
    ensures
        order.contains(c),
{
    broadcast use vstd::set::group_set_axioms;

    order.unique_seq_to_set();
    queue.unique_seq_to_set();
    assert(order.to_set().subset_of(queue.to_set())) by {
        assert forall|x: CommandId| order.to_set().contains(x) implies queue.to_set().contains(
            x,
        ) by {
            assert(order.contains(x));
            let p = choose|p: int| 0 <= p < order.len() && order[p] == x;
            assert(queue.contains(order[p]));
        }
    }
    if !order.contains(c) {
        assert(order.to_set().subset_of(queue.to_set().remove(c))) by {
            assert forall|x: CommandId| order.to_set().contains(x) implies queue.to_set().remove(
                c,
            ).contains(x) by {
                assert(order.contains(x));
                assert(x != c);
            }
        }
        vstd::set_lib::lemma_len_subset(order.to_set(), queue.to_set().remove(c));
        assert(queue.to_set().remove(c).len() == queue.to_set().len() - 1);
    }
}

/// When the selection scan stalls, every queued, unplaced command has a
/// queued, unplaced dependency, so a strictly rank-decreasing walk would
/// never end: the candidate rank function cannot respect the edges.
#[verifier::spinoff_prover]
proof fn lemma_rank_descent(
    reg: Registry,
    queue: Seq<CommandId>,
    placed: Seq<bool>,
    rank: Map<int, nat>,
    k: int,
    fuel: nat,
)
    requires
        forall|k2: int|
            0 <= k2 < queue.len() && !placed[(#[trigger] queue[k2]).index as int] ==> exists|
                m: int,
            |
                0 <= m < dep_ids(reg, queue[k2]).len() && queue.contains(
                    #[trigger] dep_ids(reg, queue[k2])[m],
                ) && !placed[dep_ids(reg, queue[k2])[m].index as int],
        forall|k2: int|
            0 <= k2 < queue.len() ==> (#[trigger] queue[k2]).index < placed.len(),
        0 <= k < queue.len(),
        !placed[queue[k].index as int],
        rank[queue[k].index as int] < fuel,
    ensures
        !rank_respects_edges(reg, queue, rank),
    decreases fuel,
{
    if rank_respects_edges(reg, queue, rank) {
        let m = choose|m: int|
            0 <= m < dep_ids(reg, queue[k]).len() && queue.contains(
                #[trigger] dep_ids(reg, queue[k])[m],
            ) && !placed[dep_ids(reg, queue[k])[m].index as int];
        let d = dep_ids(reg, queue[k])[m];
        let kd = choose|kd: int| 0 <= kd < queue.len() && queue[kd] == d;
        assert(dep_ids(reg, queue[k]).contains(d));
        assert(queue.contains(queue[k]));
        assert(rank[d.index as int] < rank[queue[k].index as int]);
        lemma_rank_descent(reg, queue, placed, rank, kd, (fuel - 1) as nat);
    }
}

/// If fewer commands are ordered than queued, some queued command is
/// unplaced: the distinct queue cannot inject into a strictly shorter order.
proof fn lemma_some_unplaced(
    queue: Seq<CommandId>,
    placed: Seq<bool>,
    order: Seq<CommandId>,
)
    requires
        forall|k1: int, k2: int| 0 <= k1 < k2 < queue.len() ==> queue[k1] != queue[k2],
        forall|k: int| 0 <= k < queue.len() ==> (#[trigger] queue[k]).index < placed.len(),
        order.len() < queue.len(),
        forall|p: int| 0 <= p < order.len() ==> queue.contains(#[trigger] order[p]),
        forall|p1: int, p2: int| 0 <= p1 < p2 < order.len() ==> order[p1] != order[p2],
        forall|i: usize|
            i < placed.len() ==> ((#[trigger] placed[i as int]) <==> order.contains(
                CommandId { index: i },
            )),
    ensures
        exists|k: int| 0 <= k < queue.len() && !placed[(#[trigger] queue[k]).index as int],
{
    broadcast use vstd::set::group_set_axioms;

    if forall|k: int| 0 <= k < queue.len() ==> placed[(#[trigger] queue[k]).index as int] {
        assert forall|k: int| 0 <= k < queue.len() implies order.contains(#[trigger] queue[k]) by {
            assert(placed[queue[k].index as int]);
            assert(order.contains(CommandId { index: queue[k].index }));
            assert(CommandId { index: queue[k].index } == queue[k]);
        }
        queue.unique_seq_to_set();
        order.unique_seq_to_set();
        assert(queue.to_set().subset_of(order.to_set())) by {
            assert forall|c: CommandId| queue.to_set().contains(c) implies order.to_set().contains(
                c,
            ) by {
                assert(queue.contains(c));
                let k = choose|k: int| 0 <= k < queue.len() && queue[k] == c;
                assert(order.contains(queue[k]));
            }
        }
        vstd::set_lib::lemma_len_subset(queue.to_set(), order.to_set());
        assert(false);
    }
}

/// At a stall the set of queued, unplaced commands is non-empty and each of
/// them waits on another unplaced one: no acyclicity witness can exist.
#[verifier::rlimit(100)]
#[verifier::spinoff_prover]
proof fn lemma_stall_not_acyclic(
    reg: Registry,
    queue: Seq<CommandId>,
    placed: Seq<bool>,
    order: Seq<CommandId>,
    involved: Seq<CommandId>,
)
    requires
        forall|k: int|
            0 <= k < queue.len() ==> (#[trigger] queue[k]).index < reg.spec_commands().len(),
        forall|k1: int, k2: int| 0 <= k1 < k2 < queue.len() ==> queue[k1] != queue[k2],
        placed.len() == reg.spec_commands().len(),
        order.len() < queue.len(),
        forall|p: int| 0 <= p < order.len() ==> queue.contains(#[trigger] order[p]),
        forall|p1: int, p2: int| 0 <= p1 < p2 < order.len() ==> order[p1] != order[p2],
        forall|i: usize|
            i < placed.len() ==> ((#[trigger] placed[i as int]) <==> order.contains(
                CommandId { index: i },
            )),
        // the scan found no eligible command
        forall|k2: int|
            0 <= k2 < queue.len() && !placed[(#[trigger] queue[k2]).index as int] ==> exists|
                m: int,
            |
                0 <= m < dep_ids(reg, queue[k2]).len() && queue.contains(
                    #[trigger] dep_ids(reg, queue[k2])[m],
                ) && !placed[dep_ids(reg, queue[k2])[m].index as int],
        involved.len() == 0 ==> forall|p: int|
            0 <= p < queue.len() ==> placed[(#[trigger] queue[p]).index as int],
    ensures
        !acyclic(reg, queue),
        involved.len() > 0,
{
    lemma_some_unplaced(queue, placed, order);
    let k0 = choose|k: int| 0 <= k < queue.len() && !placed[(#[trigger] queue[k]).index as int];
    assert(involved.len() > 0) by {
        if involved.len() == 0 {
            assert(placed[(queue[k0]).index as int]);
        }
    }
    if acyclic(reg, queue) {
        let rank = choose|rank: Map<int, nat>| rank_respects_edges(reg, queue, rank);
        lemma_rank_descent(reg, queue, placed, rank, k0, rank[queue[k0].index as int] + 1);
    }
}

/// Readiness of a command's dependencies.
enum DepCheck {
    /// Every dependency is queued and succeeded.
    Ready,
    /// Some dependency can never succeed: the command must be skipped.
    Blocked,
    /// Some dependency has not reached a terminal state yet.
    Pending,
}

impl Scheduler {
    /// Classifies the dependencies of `c` against the current states.
    fn check_deps(&self, reg: &Registry, c: CommandId) -> (r: DepCheck)
        requires
            self.wf(*reg),
            self.started,
            c.index < reg.spec_commands().len(),
        ensures
            r is Blocked <==> self.dep_blocked(*reg, c),
            !(r is Blocked) ==> (r is Ready <==> self.dep_ok(*reg, c)),
    {
        let deps = reg.dependency_edges(c);
        let mut all_ok = true;
        let mut any_blocked = false;
        let mut m: usize = 0;
        while m < deps.len()
            invariant
                m <= deps@.len(),
                deps@ == dep_ids(*reg, c),
                self.wf(*reg),
                self.started,
                all_ok == (forall|m2: int|
                    0 <= m2 < m ==> self.queue@.contains(#[trigger] deps@[m2])
                        && deps@[m2].index < self.states@.len()
                        && self.states@[deps@[m2].index as int] == CmdState::Done(
                        ExecutionStatus::Success,
                    )),
                any_blocked == (exists|m2: int|
                    0 <= m2 < m && (!self.queue@.contains(#[trigger] deps@[m2])
                        || (deps@[m2].index < self.states@.len()
                            && match self.states@[deps@[m2].index as int] {
                            CmdState::Done(st) => st != ExecutionStatus::Success,
                            _ => false,
                        }))),
            decreases deps@.len() - m,
        {
            let d = deps[m];
            if !queue_contains(&self.queue, d) {
                any_blocked = true;
                all_ok = false;
            } else {
                proof {
                    let kk = choose|kk: int| 0 <= kk < self.queue@.len() && self.queue@[kk] == d;
                    assert(self.queue@[kk].index < reg.spec_commands().len());
                }
                match self.states[d.index] {
                    CmdState::Done(st) => {
                        match st {
                            ExecutionStatus::Success => {},
                            _ => {
                                any_blocked = true;
                                all_ok = false;
                            },
                        }
                    },
                    _ => {
                        all_ok = false;
                    },
                }
            }
            m += 1;
        }
        if any_blocked {
            DepCheck::Blocked
        } else if all_ok {
            DepCheck::Ready
        } else {
            DepCheck::Pending
        }
    }

    /// Considers the command at the cursor: skips it when a prerequisite is
    /// unavailable, satisfies it from the cache when possible (materializing
    /// the cached output digests), dispatches it otherwise; `Wait` when a
    /// dependency is still running, `Finished` when the order is exhausted.
    pub fn next_action(&mut self, reg: &mut Registry) -> (r: NextAction)
        requires
            old(self).wf(*old(reg)),
            old(self).started,
            old(self).stats.execution.succeeded < u64::MAX,
            old(self).stats.execution.not_run < u64::MAX,
            old(self).stats.cache_hits < u64::MAX,
        ensures
            final(self).wf(*final(reg)),
            final(self).started,
            final(self).queue == old(self).queue,
            final(self).order == old(self).order,
            final(self).cache == old(self).cache,
            final(reg).spec_commands() == old(reg).spec_commands(),
            final(reg).spec_files().len() == old(reg).spec_files().len(),
            forall|i: int|
                0 <= i < old(reg).spec_files().len()
                    ==> (#[trigger] final(reg).spec_files()[i]).creating_command == old(
                    reg,
                ).spec_files()[i].creating_command && final(reg).spec_files()[i].arg == old(
                    reg,
                ).spec_files()[i].arg && final(reg).spec_files()[i].path == old(
                    reg,
                ).spec_files()[i].path,
            forall|i: int|
                0 <= i < old(self).states@.len() && (#[trigger] old(self).states@[i]) is Done
                    ==> final(self).states@[i] == old(self).states@[i],
            forall|i: int|
                0 <= i < old(self).states@.len() && (#[trigger] old(self).states@[i]) is Running
                    ==> final(self).states@[i] == old(self).states@[i],
            // progress: the cursor command is always acted on
            old(self).next_idx == old(self).order@.len() ==> (r is Finished || r is Wait),
            old(self).next_idx < old(self).order@.len() && old(self).dep_blocked(
                *old(reg),
                old(self).order@[old(self).next_idx as int],
            ) ==> r == NextAction::Skipped(old(self).order@[old(self).next_idx as int]),
            old(self).next_idx < old(self).order@.len() && old(self).dep_ok(
                *old(reg),
                old(self).order@[old(self).next_idx as int],
            ) ==> (r == NextAction::Execute(old(self).order@[old(self).next_idx as int])
                || exists|h: CacheHit|
                r == NextAction::Cached(old(self).order@[old(self).next_idx as int], h)),
            match r {
                NextAction::Finished => {
                    &&& *final(self) == *old(self)
                    &&& *final(reg) == *old(reg)
                    &&& old(self).next_idx == old(self).order@.len()
                    &&& !old(self).has_running()
                    &&& forall|cq: CommandId|
                        old(self).queue@.contains(cq) ==> cq.index < old(self).states@.len()
                            && old(self).states@[cq.index as int] is Done
                },
                NextAction::Wait => *final(self) == *old(self) && *final(reg) == *old(reg) && (
                (old(self).next_idx == old(self).order@.len() && old(self).has_running()) || (old(
                    self,
                ).next_idx < old(self).order@.len() && !old(self).dep_ok(
                    *old(reg),
                    old(self).order@[old(self).next_idx as int],
                ) && !old(self).dep_blocked(
                    *old(reg),
                    old(self).order@[old(self).next_idx as int],
                ))),
                NextAction::Execute(c) => {
                    &&& c.index < old(self).states@.len()
                    &&& old(self).states@[c.index as int] is Waiting
                    &&& final(self).states@[c.index as int] is Running
                    &&& old(self).queue@.contains(c)
                    &&& final(self).dep_ok(*final(reg), c)
                    &&& final(self).stats == old(self).stats
                    &&& final(self).log == old(self).log
                    &&& *final(reg) == *old(reg)
                    &&& forall|key: CacheKey|
                        executor_matches(
                            key.executor,
                            old(reg).spec_commands()[c.index as int].executor,
                        ) && resolved_digests(
                            old(reg).spec_files(),
                            old(reg).spec_commands()[c.index as int].inputs@,
                        ) == Some(key.input_digests@) ==> (spec_classify(old(self).cache, key)
                            is None || classified_outputs(
                            spec_classify(old(self).cache, key),
                        ).len() != old(reg).spec_commands()[c.index as int].outputs@.len())
                },
                NextAction::Skipped(c) => {
                    &&& c.index < old(self).states@.len()
                    &&& old(self).states@[c.index as int] is Waiting
                    &&& final(self).states@[c.index as int] == CmdState::Done(
                        ExecutionStatus::Skipped,
                    )
                    &&& old(self).dep_blocked(*old(reg), c)
                    &&& final(self).stats.execution.not_run == old(
                        self,
                    ).stats.execution.not_run + 1
                    &&& final(self).stats.execution.succeeded == old(
                        self,
                    ).stats.execution.succeeded
                    &&& final(self).stats.execution.failed == old(self).stats.execution.failed
                    &&& final(self).stats.cache_hits == old(self).stats.cache_hits
                    &&& final(self).log.items@.len() == old(self).log.items@.len() + 1
                    &&& final(self).log.items@.drop_last() == old(self).log.items@
                    &&& final(self).log.items@.last().name == old(reg).spec_commands()[
                        c.index as int
                    ].name
                    &&& final(self).log.items@.last().status == ExecutionStatus::Skipped
                    &&& final(self).log.items@.last().cache is None
                    &&& *final(reg) == *old(reg)
                },
                NextAction::Cached(c, hit) => {
                    &&& c.index < old(self).states@.len()
                    &&& old(self).states@[c.index as int] is Waiting
                    &&& final(self).states@[c.index as int] == CmdState::Done(
                        ExecutionStatus::Success,
                    )
                    &&& old(self).dep_ok(*old(reg), c)
                    &&& exists|key: CacheKey, outs: Seq<BlobDigest>|
                        executor_matches(
                            key.executor,
                            old(reg).spec_commands()[c.index as int].executor,
                        ) && resolved_digests(
                            old(reg).spec_files(),
                            old(reg).spec_commands()[c.index as int].inputs@,
                        ) == Some(key.input_digests@) && spec_classify(old(self).cache, key)
                            == Some((hit, outs)) && outs.len() == old(reg).spec_commands()[
                            c.index as int
                        ].outputs@.len() && (forall|k2: int|
                            0 <= k2 < outs.len() ==> final(reg).spec_files()[(#[trigger] old(
                                reg,
                            ).spec_commands()[c.index as int].outputs@[k2]).index as int].digest
                                == Some(outs[k2]))
                    &&& final(self).stats.execution.succeeded == old(
                        self,
                    ).stats.execution.succeeded + 1
                    &&& final(self).stats.cache_hits == old(self).stats.cache_hits + 1
                    &&& final(self).stats.execution.failed == old(self).stats.execution.failed
                    &&& final(self).stats.execution.not_run == old(self).stats.execution.not_run
                    &&& final(self).log.items@.len() == old(self).log.items@.len() + 1
                    &&& final(self).log.items@.drop_last() == old(self).log.items@
                    &&& final(self).log.items@.last().status == ExecutionStatus::Success
                    &&& final(self).log.items@.last().cache == Some(hit)
                },
            },
    {
        if self.next_idx == self.order.len() {
            if any_running(&self.states) {
                return NextAction::Wait;
            }
            proof {
                assert forall|cq: CommandId| self.queue@.contains(cq) implies cq.index
                    < self.states@.len() && self.states@[cq.index as int] is Done by {
                    assert(self.order@.contains(cq));
                    let p = choose|p: int| 0 <= p < self.order@.len() && self.order@[p] == cq;
                    assert(!(self.states@[self.order@[p].index as int] is Waiting));
                    let kq = choose|kq: int|
                        0 <= kq < self.queue@.len() && self.queue@[kq] == cq;
                    assert(self.queue@[kq].index < reg.spec_commands().len());
                    assert(!(self.states@[cq.index as int] is Running));
                }
            }
            return NextAction::Finished;
        }
        let c = self.order[self.next_idx];
        proof {
            assert(self.order@.contains(c));
            let kq = choose|kq: int| 0 <= kq < self.queue@.len() && self.queue@[kq] == c;
            assert(self.queue@[kq].index < reg.spec_commands().len());
            // the cursor command is not its own dependency
            assert(!dep_ids(*reg, self.order@[self.next_idx as int]).contains(
                self.order@[self.next_idx as int],
            ));
        }
        match self.check_deps(reg, c) {
            DepCheck::Blocked => {
                proof {
                    // a blocked dependency contradicts every dependency
                    // having succeeded
                    if self.dep_ok(*reg, c) {
                        let m = choose|m: int|
                            0 <= m < dep_ids(*reg, c).len() && (!self.queue@.contains(
                                #[trigger] dep_ids(*reg, c)[m],
                            ) || (dep_ids(*reg, c)[m].index < self.states@.len()
                                && match self.states@[dep_ids(*reg, c)[m].index as int] {
                                CmdState::Done(st) => st != ExecutionStatus::Success,
                                _ => false,
                            }));
                        assert(self.queue@.contains(dep_ids(*reg, c)[m]));
                    }
                }
                let ghost pre = *self;
                self.states.set(c.index, CmdState::Done(ExecutionStatus::Skipped));
                self.next_idx += 1;
                self.stats.execution.not_run += 1;
                let command = reg.command(c);
                self.log.push_not_run(command, ExecutionStatus::Skipped);
                proof {
                    lemma_step_wf(pre, *self, *reg, c, CmdState::Done(ExecutionStatus::Skipped));
                }
                NextAction::Skipped(c)
            },
            DepCheck::Pending => NextAction::Wait,
            DepCheck::Ready => {
                let resolved = reg.resolve_input_digests(c);
                match resolved {
                    Some(ds) => {
                        let key = CacheKey {
                            executor: clone_executor(&reg.command(c).executor),
                            input_digests: ds,
                        };
                        match self.cache.classify(&key) {
                            Some((hit, outs)) => {
                                let n_outs = reg.command(c).outputs.len();
                                if outs.len() != n_outs {
                                    // unusable stored entry: degrade to a
                                    // miss and execute
                                    let ghost pre = *self;
                                    self.states.set(c.index, CmdState::Running);
                                    self.next_idx += 1;
                                    proof {
                                        lemma_step_wf(pre, *self, *reg, c, CmdState::Running);
                                        lemma_miss_congruent(
                                            old(self).cache,
                                            key,
                                            *reg,
                                            c,
                                            n_outs as int,
                                        );
                                    }
                                    return NextAction::Execute(c);
                                }
                                let ghost pre = *self;
                                let ghost reg_pre = *reg;
                                reg.materialize_output_digests(c, &outs);
                                self.states.set(c.index, CmdState::Done(ExecutionStatus::Success));
                                self.next_idx += 1;
                                self.stats.execution.succeeded += 1;
                                self.stats.cache_hits += 1;
                                let result = ExecutionResult {
                                    status: ExecutionStatus::Success,
                                    cache_hit: Some(hit),
                                    exec_millis: None,
                                    total_millis: None,
                                    exit_code: None,
                                    error: None,
                                    stdout: Vec::new(),
                                    stderr: Vec::new(),
                                };
                                let command = reg.command(c);
                                self.log.push(command, &result, None, Vec::new());
                                proof {
                                    lemma_step_wf(
                                        pre,
                                        *self,
                                        reg_pre,
                                        c,
                                        CmdState::Done(ExecutionStatus::Success),
                                    );
                                    lemma_wf_digest_only(*self, reg_pre, *reg);
                                }
                                NextAction::Cached(c, hit)
                            },
                            None => {
                                let ghost pre = *self;
                                self.states.set(c.index, CmdState::Running);
                                self.next_idx += 1;
                                proof {
                                    lemma_step_wf(pre, *self, *reg, c, CmdState::Running);
                                    lemma_miss_congruent(
                                        old(self).cache,
                                        key,
                                        *reg,
                                        c,
                                        reg.spec_commands()[c.index as int].outputs@.len() as int,
                                    );
                                }
                                NextAction::Execute(c)
                            },
                        }
                    },
                    None => {
                        let ghost pre = *self;
                        self.states.set(c.index, CmdState::Running);
                        self.next_idx += 1;
                        proof {
                            lemma_step_wf(pre, *self, *reg, c, CmdState::Running);
                        }
                        NextAction::Execute(c)
                    },
                }
            },
        }
    }

    /// Records the real execution outcome of a dispatched command: updates
    /// its state, the statistics and the log, stores a successful action in
    /// the local cache, and materializes the output digests.
    pub fn record_execution(
        &mut self,
        reg: &mut Registry,
        c: CommandId,
        result: ExecutionResult,
        output_digests: Vec<BlobDigest>,
        output_size: Option<u64>,
        measurements: Vec<Measurement>,
    )
        requires
            old(self).wf(*old(reg)),
            old(self).started,
            c.index < old(self).states@.len(),
            old(self).states@[c.index as int] is Running,
            result.status == ExecutionStatus::Success || result.status == ExecutionStatus::Failed,
            result.cache_hit is None,
            result.status == ExecutionStatus::Success ==> output_digests@.len() == old(
                reg,
            ).spec_commands()[c.index as int].outputs@.len(),
            old(self).stats.execution.succeeded < u64::MAX,
            old(self).stats.execution.failed < u64::MAX,
        ensures
            final(self).wf(*final(reg)),
            final(self).started,
            final(self).queue == old(self).queue,
            final(self).order == old(self).order,
            final(self).next_idx == old(self).next_idx,
            final(self).states@ == old(self).states@.update(
                c.index as int,
                CmdState::Done(result.status),
            ),
            result.status == ExecutionStatus::Success ==> {
                &&& final(self).stats.execution.succeeded == old(
                    self,
                ).stats.execution.succeeded + 1
                &&& final(self).stats.execution.failed == old(self).stats.execution.failed
            },
            result.status == ExecutionStatus::Failed ==> {
                &&& final(self).stats.execution.failed == old(self).stats.execution.failed + 1
                &&& final(self).stats.execution.succeeded == old(self).stats.execution.succeeded
            },
            final(self).stats.execution.not_run == old(self).stats.execution.not_run,
            final(self).stats.cache_hits == old(self).stats.cache_hits,
            final(self).log.items@.len() == old(self).log.items@.len() + 1,
            final(self).log.items@.drop_last() == old(self).log.items@,
            final(self).log.items@.last().name == old(reg).spec_commands()[c.index as int].name,
            final(self).log.items@.last().status == result.status,
            final(self).log.items@.last().cache is None,
            final(self).log.items@.last().exec_ms == result.exec_millis,
            final(self).log.items@.last().total_ms == result.total_millis,
            final(self).log.items@.last().output_size == output_size,
            final(reg).spec_commands() == old(reg).spec_commands(),
            final(reg).spec_files().len() == old(reg).spec_files().len(),
            forall|i: int|
                0 <= i < old(reg).spec_files().len()
                    ==> (#[trigger] final(reg).spec_files()[i]).creating_command == old(
                    reg,
                ).spec_files()[i].creating_command && final(reg).spec_files()[i].arg == old(
                    reg,
                ).spec_files()[i].arg && final(reg).spec_files()[i].path == old(
                    reg,
                ).spec_files()[i].path,
            result.status == ExecutionStatus::Failed ==> final(self).cache == old(self).cache
                && *final(reg) == *old(reg),
            // on success the output digests are materialized ...
            result.status == ExecutionStatus::Success ==> forall|k: int|
                0 <= k < output_digests@.len()
                    ==> final(reg).spec_files()[(#[trigger] old(reg).spec_commands()[
                c.index as int].outputs@[k]).index as int].digest == Some(output_digests@[k]),
            // ... and, when the inputs resolve, the action enters the local
            // store under this command's executor and resolved input digests
            result.status == ExecutionStatus::Success && resolved_digests(
                old(reg).spec_files(),
                old(reg).spec_commands()[c.index as int].inputs@,
            ) is Some ==> {
                &&& final(self).cache.local_actions@.len() == old(
                    self,
                ).cache.local_actions@.len() + 1
                &&& final(self).cache.local_actions@.drop_last() == old(self).cache.local_actions@
                &&& executor_matches(
                    final(self).cache.local_actions@.last().key.executor,
                    old(reg).spec_commands()[c.index as int].executor,
                )
                &&& final(self).cache.local_actions@.last().key.input_digests@ == resolved_digests(
                    old(reg).spec_files(),
                    old(reg).spec_commands()[c.index as int].inputs@,
                )->0
                &&& final(self).cache.local_actions@.last().output_digests@ == output_digests@
                &&& final(self).cache.local_blobs@ == old(self).cache.local_blobs@
                    + output_digests@
                &&& final(self).cache.remote_actions == old(self).cache.remote_actions
                &&& final(self).cache.remote_blobs == old(self).cache.remote_blobs
                &&& final(self).cache.remote_enabled == old(self).cache.remote_enabled
            },
            result.status == ExecutionStatus::Success && resolved_digests(
                old(reg).spec_files(),
                old(reg).spec_commands()[c.index as int].inputs@,
            ) is None ==> final(self).cache == old(self).cache,
    {
        proof {
            let kq = choose|kq: int| 0 <= kq < self.queue@.len() && self.queue@[kq] == CommandId {
                index: c.index,
            };
        }
        assert(self.queue@.contains(CommandId { index: c.index })) by {
            assert(!(self.states@[c.index as int] is Waiting));
        }
        assert(c.index < reg.spec_commands().len()) by {
            let kq = choose|kq: int|
                0 <= kq < self.queue@.len() && self.queue@[kq] == CommandId { index: c.index };
            assert(self.queue@[kq].index < reg.spec_commands().len());
        }
        let ghost pre = *self;
        let ghost reg_pre = *reg;
        let is_success = match result.status {
            ExecutionStatus::Success => true,
            _ => false,
        };
        if is_success {
            // remember the action for later identical commands
            match reg.resolve_input_digests(c) {
                Some(ds) => {
                    let key = CacheKey {
                        executor: clone_executor(&reg.command(c).executor),
                        input_digests: ds,
                    };
                    self.cache.store_local(key, clone_digests(&output_digests));
                },
                None => {},
            }
            // materialize the output digests
            reg.materialize_output_digests(c, &output_digests);
        }
        self.states.set(c.index, CmdState::Done(result.status));
        match result.status {
            ExecutionStatus::Success => {
                self.stats.execution.succeeded += 1;
            },
            _ => {
                self.stats.execution.failed += 1;
            },
        }
        let command = reg.command(c);
        self.log.push(command, &result, output_size, measurements);
        proof {
            lemma_record_wf(pre, *self, reg_pre, c, result.status);
            lemma_wf_digest_only(*self, reg_pre, *reg);
        }
    }

    pub fn stats(&self) -> (r: SchedulerStats)
        ensures
            r == self.stats,
    {
        self.stats
    }

    pub fn log(&self) -> (r: &LogFile)
        ensures
            r == &self.log,
    {
        &self.log
    }
}

/// Copies an executor definition; it describes the same action.
pub fn clone_executor(e: &Executor) -> (r: Executor)
    ensures
        executor_matches(r, *e),
{
    match e {
        Executor::Process { program, args } => Executor::Process {
            program: program.clone(),
            args: clone_strings(args),
        },
        Executor::Task { task, args } => Executor::Task {
            task: task.clone(),
            args: clone_strings(args),
        },
    }
}

/// Copies a vector of strings, preserving the values.
pub fn clone_strings(v: &Vec<String>) -> (r: Vec<String>)
    ensures
        r@ == v@,
{
    let mut r: Vec<String> = Vec::new();
    let mut k: usize = 0;
    while k < v.len()
        invariant
            k <= v@.len(),
            r@ == v@.subrange(0, k as int),
        decreases v@.len() - k,
    {
        r.push(v[k].clone());
        proof {
            assert(v@.subrange(0, k as int + 1) == v@.subrange(0, k as int).push(v@[k as int]));
        }
        k += 1;
    }
    proof {
        assert(v@.subrange(0, v@.len() as int) == v@);
        assert(r@ == v@);
    }
    r
}

/// Advancing the cursor by one step with a legitimate state transition of
/// the cursor command preserves the scheduler invariant.
#[verifier::rlimit(100)]
#[verifier::spinoff_prover]
proof fn lemma_step_wf(pre: Scheduler, post: Scheduler, reg: Registry, c: CommandId, st: CmdState)
    requires
        pre.wf(reg),
        pre.started,
        pre.next_idx < pre.order@.len(),
        c == pre.order@[pre.next_idx as int],
        post.queue@ == pre.queue@,
        post.order@ == pre.order@,
        post.started,
        post.next_idx == pre.next_idx + 1,
        post.states@ == pre.states@.update(c.index as int, st),
        st is Running || st == CmdState::Done(ExecutionStatus::Skipped) || st == CmdState::Done(
            ExecutionStatus::Success,
        ),
        st is Running ==> pre.dep_ok(reg, c),
        st == CmdState::Done(ExecutionStatus::Success) ==> pre.dep_ok(reg, c),
        st == CmdState::Done(ExecutionStatus::Skipped) ==> pre.dep_blocked(reg, c),
    ensures
        post.wf(reg),
{
    assert(pre.order@.contains(c));
    assert(c.index < reg.spec_commands().len()) by {
        assert(pre.queue@.contains(c));
        let kq = choose|kq: int| 0 <= kq < pre.queue@.len() && pre.queue@[kq] == c;
        assert(pre.queue@[kq].index < reg.spec_commands().len());
    }
    assert(pre.states@[c.index as int] is Waiting);
    // other positions keep their states: distinct ids have distinct indices
    assert forall|p: int|
        0 <= p < pre.order@.len() && p != pre.next_idx
        implies post.states@[pre.order@[p].index as int]
        == pre.states@[pre.order@[p].index as int] by {
        assert(pre.queue@.contains(pre.order@[p]));
        let kq2 = choose|kq2: int|
            0 <= kq2 < pre.queue@.len() && pre.queue@[kq2] == pre.order@[p];
        assert(pre.queue@[kq2].index < reg.spec_commands().len());
        if pre.order@[p].index == c.index {
            assert(pre.order@[p] == CommandId { index: c.index });
            assert(pre.order@[p] == c);
            if p < pre.next_idx {
                assert(pre.order@[p] != pre.order@[pre.next_idx as int]);
            } else {
                assert(pre.order@[pre.next_idx as int] != pre.order@[p]);
            }
        }
    }
    assert forall|i: usize|
        i < post.states@.len() && ((#[trigger] post.states@[i as int]) is Running
            || post.states@[i as int] == CmdState::Done(ExecutionStatus::Success)
            || post.states@[i as int] == CmdState::Done(ExecutionStatus::Failed))
        implies post.dep_ok(reg, CommandId { index: i }) by {
        if i == c.index {
            assert(pre.dep_ok(reg, c));
            assert forall|m: int|
                0 <= m < dep_ids(reg, CommandId { index: i }).len() implies post.queue@.contains(
                #[trigger] dep_ids(reg, CommandId { index: i })[m],
            ) && dep_ids(reg, CommandId { index: i })[m].index < post.states@.len()
                && post.states@[dep_ids(reg, CommandId { index: i })[m].index as int]
                == CmdState::Done(ExecutionStatus::Success) by {
                assert(CommandId { index: i } == c);
                let d = dep_ids(reg, c)[m];
                assert(pre.states@[d.index as int] == CmdState::Done(ExecutionStatus::Success));
                assert(d.index != c.index);
            }
        } else {
            assert(pre.states@[i as int] == post.states@[i as int]);
            assert(pre.dep_ok(reg, CommandId { index: i }));
            assert forall|m: int|
                0 <= m < dep_ids(reg, CommandId { index: i }).len() implies post.queue@.contains(
                #[trigger] dep_ids(reg, CommandId { index: i })[m],
            ) && dep_ids(reg, CommandId { index: i })[m].index < post.states@.len()
                && post.states@[dep_ids(reg, CommandId { index: i })[m].index as int]
                == CmdState::Done(ExecutionStatus::Success) by {
                let d = dep_ids(reg, CommandId { index: i })[m];
                assert(pre.states@[d.index as int] == CmdState::Done(ExecutionStatus::Success));
                assert(d.index != c.index);
            }
        }
    }
    assert forall|i: usize|
        i < post.states@.len() && (#[trigger] post.states@[i as int]) == CmdState::Done(
            ExecutionStatus::Skipped,
        ) implies post.dep_blocked(reg, CommandId { index: i }) by {
        if i == c.index {
            assert(CommandId { index: i } == c);
            assert(pre.dep_blocked(reg, c));
            let m = choose|m: int|
                0 <= m < dep_ids(reg, c).len() && (!pre.queue@.contains(
                    #[trigger] dep_ids(reg, c)[m],
                ) || (dep_ids(reg, c)[m].index < pre.states@.len() && match pre.states@[dep_ids(
                    reg,
                    c,
                )[m].index as int] {
                    CmdState::Done(st2) => st2 != ExecutionStatus::Success,
                    _ => false,
                }));
            let d = dep_ids(reg, c)[m];
            if pre.queue@.contains(d) {
                assert(d.index != c.index) by {
                    if d.index == c.index {
                        assert(d == c);
                        assert(pre.states@[c.index as int] is Waiting);
                    }
                }
                assert(post.states@[d.index as int] == pre.states@[d.index as int]);
            }
        } else {
            assert(pre.states@[i as int] == post.states@[i as int]);
            assert(pre.dep_blocked(reg, CommandId { index: i }));
            let m = choose|m: int|
                0 <= m < dep_ids(reg, CommandId { index: i }).len() && (!pre.queue@.contains(
                    #[trigger] dep_ids(reg, CommandId { index: i })[m],
                ) || (dep_ids(reg, CommandId { index: i })[m].index < pre.states@.len()
                    && match pre.states@[dep_ids(reg, CommandId { index: i })[m].index as int] {
                    CmdState::Done(st2) => st2 != ExecutionStatus::Success,
                    _ => false,
                }));
            let d = dep_ids(reg, CommandId { index: i })[m];
            if pre.queue@.contains(d) {
                if d.index == c.index {
                    assert(d == c);
                    assert(pre.states@[c.index as int] is Waiting);
                }
                assert(post.states@[d.index as int] == pre.states@[d.index as int]);
            }
        }
    }
}

/// Recording a terminal outcome for a running command preserves the
/// scheduler invariant (the registry may gain digests, nothing else).
#[verifier::rlimit(100)]
#[verifier::spinoff_prover]
proof fn lemma_record_wf(
    pre: Scheduler,
    post: Scheduler,
    reg: Registry,
    c: CommandId,
    status: ExecutionStatus,
)
    requires
        pre.wf(reg),
        pre.started,
        c.index < pre.states@.len(),
        pre.states@[c.index as int] is Running,
        status == ExecutionStatus::Success || status == ExecutionStatus::Failed,
        post.queue@ == pre.queue@,
        post.order@ == pre.order@,
        post.started,
        post.next_idx == pre.next_idx,
        post.states@ == pre.states@.update(c.index as int, CmdState::Done(status)),
    ensures
        post.wf(reg),
{
    assert(pre.queue@.contains(CommandId { index: c.index })) by {
        assert(!(pre.states@[c.index as int] is Waiting));
    }
    assert(pre.dep_ok(reg, CommandId { index: c.index }));
    assert forall|p: int|
        0 <= p < pre.order@.len() && pre.order@[p].index != c.index
        implies post.states@[pre.order@[p].index as int]
        == pre.states@[pre.order@[p].index as int] by {
        assert(pre.queue@.contains(pre.order@[p]));
        let kq2 = choose|kq2: int|
            0 <= kq2 < pre.queue@.len() && pre.queue@[kq2] == pre.order@[p];
        assert(pre.queue@[kq2].index < reg.spec_commands().len());
    }
    // cursor clauses: the command was already dispatched, hence before the
    // cursor, and stays non-waiting
    assert forall|p: int|
        0 <= p < post.next_idx implies !((#[trigger] post.states@[post.order@[p].index as int])
        is Waiting) by {
        if post.order@[p].index == c.index {
        } else {
            assert(!(pre.states@[pre.order@[p].index as int] is Waiting));
        }
    }
    assert forall|p: int|
        post.next_idx <= p < post.order@.len()
        implies (#[trigger] post.states@[post.order@[p].index as int]) is Waiting by {
        assert(pre.states@[pre.order@[p].index as int] is Waiting);
        assert(pre.order@[p].index != c.index);
    }
    assert forall|i: usize|
        i < post.states@.len() && ((#[trigger] post.states@[i as int]) is Running
            || post.states@[i as int] == CmdState::Done(ExecutionStatus::Success)
            || post.states@[i as int] == CmdState::Done(ExecutionStatus::Failed))
        implies post.dep_ok(reg, CommandId { index: i }) by {
        if i == c.index {
            assert(pre.dep_ok(reg, CommandId { index: i }));
        } else {
            assert(pre.states@[i as int] == post.states@[i as int]);
            assert(pre.dep_ok(reg, CommandId { index: i }));
        }
        assert forall|m: int|
            0 <= m < dep_ids(reg, CommandId { index: i }).len() implies post.queue@.contains(
            #[trigger] dep_ids(reg, CommandId { index: i })[m],
        ) && dep_ids(reg, CommandId { index: i })[m].index < post.states@.len()
            && post.states@[dep_ids(reg, CommandId { index: i })[m].index as int] == CmdState::Done(
            ExecutionStatus::Success,
        ) by {
            let d = dep_ids(reg, CommandId { index: i })[m];
            assert(pre.states@[d.index as int] == CmdState::Done(ExecutionStatus::Success));
            assert(d.index != c.index);
        }
    }
    assert forall|i: usize|
        i < post.states@.len() && (#[trigger] post.states@[i as int]) == CmdState::Done(
            ExecutionStatus::Skipped,
        ) implies post.dep_blocked(reg, CommandId { index: i }) by {
        assert(i != c.index);
        assert(pre.states@[i as int] == post.states@[i as int]);
        assert(pre.dep_blocked(reg, CommandId { index: i }));
        let m = choose|m: int|
            0 <= m < dep_ids(reg, CommandId { index: i }).len() && (!pre.queue@.contains(
                #[trigger] dep_ids(reg, CommandId { index: i })[m],
            ) || (dep_ids(reg, CommandId { index: i })[m].index < pre.states@.len()
                && match pre.states@[dep_ids(reg, CommandId { index: i })[m].index as int] {
                CmdState::Done(st2) => st2 != ExecutionStatus::Success,
                _ => false,
            }));
        let d = dep_ids(reg, CommandId { index: i })[m];
        if pre.queue@.contains(d) {
            if d.index == c.index {
                assert(d == CommandId { index: c.index });
                assert(pre.states@[c.index as int] is Running);
            }
            assert(post.states@[d.index as int] == pre.states@[d.index as int]);
        }
    }
}

/// The invariant only reads which command creates each file, so a registry
/// differing from the started one in digests alone still satisfies it.
#[verifier::rlimit(100)]
#[verifier::spinoff_prover]
proof fn lemma_wf_digest_only(s: Scheduler, reg1: Registry, reg2: Registry)
    requires
        s.wf(reg1),
        reg2.wf(),
        reg2.spec_commands() == reg1.spec_commands(),
        reg2.spec_files().len() == reg1.spec_files().len(),
        forall|i: int|
            0 <= i < reg1.spec_files().len() ==> (#[trigger] reg2.spec_files()[i]).creating_command
                == reg1.spec_files()[i].creating_command,
    ensures
        s.wf(reg2),
{
    assert forall|c: CommandId| #[trigger] dep_ids(reg2, c) == dep_ids(reg1, c) by {
        crate::registry::lemma_dep_edges_digest_only(
            reg1.spec_files(),
            reg2.spec_files(),
            reg1.spec_commands()[c.index as int].inputs@,
        );
    }
    if s.started {
        assert forall|i: usize|
            i < s.states@.len() && ((#[trigger] s.states@[i as int]) is Running
                || s.states@[i as int] == CmdState::Done(ExecutionStatus::Success)
                || s.states@[i as int] == CmdState::Done(ExecutionStatus::Failed))
            implies s.dep_ok(reg2, CommandId { index: i }) by {
            assert(s.dep_ok(reg1, CommandId { index: i }));
            assert(dep_ids(reg2, CommandId { index: i }) == dep_ids(reg1, CommandId { index: i }));
        }
        assert forall|i: usize|
            i < s.states@.len() && (#[trigger] s.states@[i as int]) == CmdState::Done(
                ExecutionStatus::Skipped,
            ) implies s.dep_blocked(reg2, CommandId { index: i }) by {
            assert(s.dep_blocked(reg1, CommandId { index: i }));
            assert(dep_ids(reg2, CommandId { index: i }) == dep_ids(reg1, CommandId { index: i }));
        }
        assert forall|p: int, q: int|
            #![trigger dep_ids(reg2, s.order@[p]).contains(s.order@[q])]
            0 <= p <= q < s.order@.len() implies !dep_ids(reg2, s.order@[p]).contains(
            s.order@[q],
        ) by {
            assert(!dep_ids(reg1, s.order@[p]).contains(s.order@[q]));
            assert(dep_ids(reg2, s.order@[p]) == dep_ids(reg1, s.order@[p]));
        }
    }
}

/// A command that reached a terminal state while one of its dependencies is
/// not a queued success can only be `Skipped`: a failed or skipped
/// prerequisite propagates, transitively, as `Skipped` to its dependents.
pub proof fn lemma_skip_propagation(s: Scheduler, reg: Registry, c: CommandId, d: CommandId)
    requires
        s.wf(reg),
        s.started,
        c.index < s.states@.len(),
        s.states@[c.index as int] is Done,
        dep_ids(reg, c).contains(d),
        !(s.queue@.contains(d) && d.index < s.states@.len() && s.states@[d.index as int]
            == CmdState::Done(ExecutionStatus::Success)),
    ensures
        s.states@[c.index as int] == CmdState::Done(ExecutionStatus::Skipped),
{
    let st = s.states@[c.index as int]->0;
    if st != ExecutionStatus::Skipped {
        assert(s.states@[c.index as int] == CmdState::Done(ExecutionStatus::Success)
            || s.states@[c.index as int] == CmdState::Done(ExecutionStatus::Failed));
        assert(s.dep_ok(reg, CommandId { index: c.index }));
        let m = choose|m: int| 0 <= m < dep_ids(reg, c).len() && dep_ids(reg, c)[m] == d;
        assert(dep_ids(reg, CommandId { index: c.index }) == dep_ids(reg, c)) by {
            assert(CommandId { index: c.index } == c);
        }
        assert(s.queue@.contains(dep_ids(reg, CommandId { index: c.index })[m]));
        assert(s.states@[d.index as int] == CmdState::Done(ExecutionStatus::Success));
    }
}

} // verus!

