//! Front-end helper: turns an already-split command line into a registered,
//! queued command.
use vstd::prelude::*;
use crate::command::{CommandId, Executor, Tag};
use crate::registry::Registry;
use crate::scheduler::Scheduler;

verus! {

/// A command line with no program word cannot become a command.
#[derive(Copy, Clone, Debug, PartialEq, Eq, Structural)]
pub struct EmptyCommandLineError {}

/// Registers a custom command from a split command line — the first word is
/// the program, the rest its arguments — and enqueues it; fails exactly on
/// an empty command line.
pub fn parse_command(
    scheduler: &mut Scheduler,
    reg: &mut Registry,
    command_line: Vec<String>,
) -> (r: Result<CommandId, EmptyCommandLineError>)
    requires
        old(reg).wf(),
        !old(scheduler).started,
        forall|k: int|
            0 <= k < old(scheduler).queue@.len() ==> (#[trigger] old(scheduler).queue@[k]).index
                < old(reg).spec_commands().len(),
    ensures
        final(reg).wf(),
        r is Err <==> command_line@.len() == 0,
        r is Err ==> *final(reg) == *old(reg) && *final(scheduler) == *old(scheduler),
        r matches Ok(cid) ==> {
            &&& cid.index == old(reg).spec_commands().len()
            &&& final(reg).spec_commands().len() == old(reg).spec_commands().len() + 1
            &&& final(reg).spec_commands()[cid.index as int].name == command_line[0]
            &&& final(reg).spec_commands()[cid.index as int].tags@.len() == 0
            &&& final(reg).spec_commands()[cid.index as int].executor == (Executor::Process {
                program: command_line[0],
                args: final(reg).spec_commands()[cid.index as int].executor->Process_args,
            })
            &&& final(reg).spec_commands()[cid.index as int].executor->Process_args@
                == command_line@.skip(1)
            &&& final(reg).spec_commands()[cid.index as int].inputs@.len() == 0
            &&& final(reg).spec_commands()[cid.index as int].outputs@.len() == 0
            &&& final(scheduler).queue@ == old(scheduler).queue@.push(cid)
            &&& !final(scheduler).started
        },
{
    if command_line.len() == 0 {
        return Err(EmptyCommandLineError {});
    }
    let program = command_line[0].clone();
    let mut args: Vec<String> = Vec::new();
    let mut k: usize = 1;
    while k < command_line.len()
        invariant
            1 <= k <= command_line@.len(),
            command_line@.len() >= 1,
            args@ == command_line@.subrange(1, k as int),
        decreases command_line@.len() - k,
    {
        args.push(command_line[k].clone());
        proof {
            assert(command_line@.subrange(1, k as int + 1) == command_line@.subrange(
                1,
                k as int,
            ).push(command_line@[k as int]));
        }
        k += 1;
    }
    proof {
        assert(command_line@.subrange(1, command_line@.len() as int) == command_line@.skip(1));
    }
    let name = program.clone();
    let executor = Executor::Process { program, args };
    let tags: Vec<Tag> = Vec::new();
    match reg.add_command(name, executor, Vec::new(), Vec::new(), tags) {
        Ok(cid) => {
            proof {
                if scheduler.queue@.contains(cid) {
                    let kq = choose|kq: int|
                        0 <= kq < scheduler.queue@.len() && scheduler.queue@[kq] == cid;
                }
            }
            scheduler.push(cid);
            Ok(cid)
        },
        Err(_) => {
            // no outputs are declared, so no duplicate declaration can occur
            proof {
                assert(false);
            }
            Err(EmptyCommandLineError {})
        },
    }
}

} // verus!
