//! The JSONL front-end record format: one JSON object per line, describing
//! either a custom command (a process with declared input/output files) or a
//! named built-in task. The grammar is the spec parser; the executable
//! parser returns exactly what it says.
use vstd::prelude::*;
use crate::command::{CommandId, Executor};
use crate::file::FileId;
use crate::registry::{DuplicateOutputError, Registry};
use crate::scheduler::Scheduler;
use crate::codec::{
    parse_lit, parse_lit_exec, parse_string, parse_string_exec, parse_string_list_rest,
    parse_string_list_rest_exec, str_to_chars, lemma_string_body_bounds,
};

verus! {

/// One parsed command description.
pub enum CommandRecord {
    Custom {
        name: String,
        executable: String,
        args: Vec<String>,
        inputs: Vec<String>,
        outputs: Vec<String>,
    },
    Task { name: String, task: String, args: Vec<String> },
}

/// Ghost image of a record, every field at view level.
pub enum RecordView {
    Custom {
        name: Seq<char>,
        executable: Seq<char>,
        args: Seq<Seq<char>>,
        inputs: Seq<Seq<char>>,
        outputs: Seq<Seq<char>>,
    },
    Task { name: Seq<char>, task: Seq<char>, args: Seq<Seq<char>> },
}

pub open spec fn record_view(r: CommandRecord) -> RecordView {
    match r {
        CommandRecord::Custom { name, executable, args, inputs, outputs } => RecordView::Custom {
            name: name@,
            executable: executable@,
            args: args@.map_values(|t: String| t@),
            inputs: inputs@.map_values(|t: String| t@),
            outputs: outputs@.map_values(|t: String| t@),
        },
        CommandRecord::Task { name, task, args } => RecordView::Task {
            name: name@,
            task: task@,
            args: args@.map_values(|t: String| t@),
        },
    }
}

/// A possibly-empty array of strings.
pub open spec fn parse_string_array(s: Seq<char>, pos: int) -> Option<(Seq<Seq<char>>, int)> {
    match parse_lit(s, pos, "["@) {
        Some(p) => if p < s.len() && s[p] == ']' {
            Some((Seq::empty(), p + 1))
        } else {
            match parse_string(s, p) {
                Some(t) => match parse_string_list_rest(s, t.1) {
                    Some(q) => Some((seq![t.0] + q.0, q.1)),
                    None => None,
                },
                None => None,
            }
        },
        None => None,
    }
}

/// One whole line: a custom-command object or a task object, consuming the
/// entire text.
pub open spec fn parse_record(s: Seq<char>) -> Option<RecordView> {
    match parse_lit(s, 0, "{\"name\":"@) {
        Some(p1) => match parse_string(s, p1) {
            Some(name) => if parse_lit(s, name.1, ",\"executable\":"@) is Some {
                let p2 = parse_lit(s, name.1, ",\"executable\":"@)->0;
                match parse_string(s, p2) {
                    Some(exe) => match parse_lit(s, exe.1, ",\"args\":"@) {
                        Some(p3) => match parse_string_array(s, p3) {
                            Some(args) => match parse_lit(s, args.1, ",\"inputs\":"@) {
                                Some(p4) => match parse_string_array(s, p4) {
                                    Some(ins) => match parse_lit(s, ins.1, ",\"outputs\":"@) {
                                        Some(p5) => match parse_string_array(s, p5) {
                                            Some(outs) => match parse_lit(s, outs.1, "}"@) {
                                                Some(p6) => if p6 == s.len() {
                                                    Some(RecordView::Custom {
                                                        name: name.0,
                                                        executable: exe.0,
                                                        args: args.0,
                                                        inputs: ins.0,
                                                        outputs: outs.0,
                                                    })
                                                } else {
                                                    None
                                                },
                                                None => None,
                                            },
                                            None => None,
                                        },
                                        None => None,
                                    },
                                    None => None,
                                },
                                None => None,
                            },
                            None => None,
                        },
                        None => None,
                    },
                    None => None,
                }
            } else if parse_lit(s, name.1, ",\"task\":"@) is Some {
                let p2 = parse_lit(s, name.1, ",\"task\":"@)->0;
                match parse_string(s, p2) {
                    Some(task) => match parse_lit(s, task.1, ",\"args\":"@) {
                        Some(p3) => match parse_string_array(s, p3) {
                            Some(args) => match parse_lit(s, args.1, "}"@) {
                                Some(p4) => if p4 == s.len() {
                                    Some(RecordView::Task {
                                        name: name.0,
                                        task: task.0,
                                        args: args.0,
                                    })
                                } else {
                                    None
                                },
                                None => None,
                            },
                            None => None,
                        },
                        None => None,
                    },
                    None => None,
                }
            } else {
                None
            },
            None => None,
        },
        None => None,
    }
}

fn parse_string_array_exec(s: &Vec<char>, pos: usize) -> (r: Option<(Vec<String>, usize)>)
    ensures
        match r {
            Some(p) => parse_string_array(s@, pos as int) == Some(
                (p.0@.map_values(|t: String| t@), p.1 as int),
            ) && p.1 <= s@.len(),
            None => parse_string_array(s@, pos as int) is None,
        },
{
    match parse_lit_exec(s, pos, "[") {
        Some(p) => {
            if p < s.len() && s[p] == ']' {
                let out: Vec<String> = Vec::new();
                proof {
                    assert(out@.map_values(|t: String| t@) =~= Seq::<Seq<char>>::empty());
                }
                Some((out, p + 1))
            } else {
                match parse_string_exec(s, p) {
                    Some((t, p2)) => {
                        proof {
                            lemma_string_body_bounds(s@, p + 1);
                        }
                        match parse_string_list_rest_exec(s, p2) {
                            Some((mut rest, p3)) => {
                                let ghost rest_view = rest@;
                                let mut out: Vec<String> = Vec::new();
                                out.push(t);
                                out.append(&mut rest);
                                proof {
                                    assert(out@.map_values(|t2: String| t2@) =~= seq![t@]
                                        + rest_view.map_values(|t2: String| t2@));
                                }
                                Some((out, p3))
                            },
                            None => None,
                        }
                    },
                    None => None,
                }
            }
        },
        None => None,
    }
}

/// The line does not describe a command record.
#[derive(Copy, Clone, Debug, PartialEq, Eq, Structural)]
pub struct RecordParseError {}

/// Parses one JSONL line. Succeeds exactly on lines the record grammar
/// accepts, returning precisely the described record.
pub fn record_from_line(line: &str) -> (r: Result<CommandRecord, RecordParseError>)
    ensures
        r matches Ok(rec) ==> parse_record(line@) == Some(record_view(rec)),
        r is Err ==> parse_record(line@) is None,
{
    let chars = str_to_chars(line);
    let p1 = match parse_lit_exec(&chars, 0, "{\"name\":") {
        Some(p) => p,
        None => {
            return Err(RecordParseError {});
        },
    };
    let (name, pn) = match parse_string_exec(&chars, p1) {
        Some(x) => x,
        None => {
            return Err(RecordParseError {});
        },
    };
    match parse_lit_exec(&chars, pn, ",\"executable\":") {
        Some(p2) => {
            let (executable, pe) = match parse_string_exec(&chars, p2) {
                Some(x) => x,
                None => {
                    return Err(RecordParseError {});
                },
            };
            let p3 = match parse_lit_exec(&chars, pe, ",\"args\":") {
                Some(p) => p,
                None => {
                    return Err(RecordParseError {});
                },
            };
            let (args, pa) = match parse_string_array_exec(&chars, p3) {
                Some(x) => x,
                None => {
                    return Err(RecordParseError {});
                },
            };
            let p4 = match parse_lit_exec(&chars, pa, ",\"inputs\":") {
                Some(p) => p,
                None => {
                    return Err(RecordParseError {});
                },
            };
            let (inputs, pi) = match parse_string_array_exec(&chars, p4) {
                Some(x) => x,
                None => {
                    return Err(RecordParseError {});
                },
            };
            let p5 = match parse_lit_exec(&chars, pi, ",\"outputs\":") {
                Some(p) => p,
                None => {
                    return Err(RecordParseError {});
                },
            };
            let (outputs, po) = match parse_string_array_exec(&chars, p5) {
                Some(x) => x,
                None => {
                    return Err(RecordParseError {});
                },
            };
            let p6 = match parse_lit_exec(&chars, po, "}") {
                Some(p) => p,
                None => {
                    return Err(RecordParseError {});
                },
            };
            if p6 == chars.len() {
                Ok(CommandRecord::Custom { name, executable, args, inputs, outputs })
            } else {
                Err(RecordParseError {})
            }
        },
        None => {
            let p2 = match parse_lit_exec(&chars, pn, ",\"task\":") {
                Some(p) => p,
                None => {
                    return Err(RecordParseError {});
                },
            };
            let (task, pt) = match parse_string_exec(&chars, p2) {
                Some(x) => x,
                None => {
                    return Err(RecordParseError {});
                },
            };
            let p3 = match parse_lit_exec(&chars, pt, ",\"args\":") {
                Some(p) => p,
                None => {
                    return Err(RecordParseError {});
                },
            };
            let (args, pa) = match parse_string_array_exec(&chars, p3) {
                Some(x) => x,
                None => {
                    return Err(RecordParseError {});
                },
            };
            let p4 = match parse_lit_exec(&chars, pa, "}") {
                Some(p) => p,
                None => {
                    return Err(RecordParseError {});
                },
            };
            if p4 == chars.len() {
                Ok(CommandRecord::Task { name, task, args })
            } else {
                Err(RecordParseError {})
            }
        },
    }
}


/// The arena index of the first file registered under `path`, if any.
fn find_file_by_path(reg: &Registry, path: &String) -> (r: Option<FileId>)
    requires
        reg.wf(),
    ensures
        match r {
            Some(id) => reg.valid_file(id) && reg.spec_files()[id.index as int].path@ == path@,
            None => forall|i: int|
                0 <= i < reg.spec_files().len() ==> (#[trigger] reg.spec_files()[i]).path@
                    != path@,
        },
{
    let mut k: usize = 0;
    while k < reg.files.len()
        invariant
            k <= reg.files@.len(),
            forall|i: int| 0 <= i < k ==> (#[trigger] reg.files@[i]).path@ != path@,
            reg.wf(),
        decreases reg.files@.len() - k,
    {
        if reg.files[k].path == *path {
            return Some(FileId { index: k });
        }
        k += 1;
    }
    None
}

/// The file registered under `path`, reusing an existing entry so that
/// commands naming the same path share one file — the basis of dependency
/// edges — and registering a new one otherwise.
fn find_or_add_file(reg: &mut Registry, path: &String) -> (id: FileId)
    requires
        old(reg).wf(),
    ensures
        final(reg).wf(),
        final(reg).valid_file(id),
        final(reg).spec_files()[id.index as int].path@ == path@,
        final(reg).spec_commands() == old(reg).spec_commands(),
        final(reg).spec_files().len() >= old(reg).spec_files().len(),
        forall|i: int|
            0 <= i < old(reg).spec_files().len() ==> final(reg).spec_files()[i] == old(
                reg,
            ).spec_files()[i],
{
    match find_file_by_path(reg, path) {
        Some(id) => id,
        None => reg.add_file(path.clone(), path.clone()),
    }
}

/// Registers one parsed record as a command and enqueues it: its input and
/// output paths become registry files (shared with other commands naming the
/// same path), and a duplicate output declaration is rejected.
#[verifier::loop_isolation(false)]
pub fn register_record(
    scheduler: &mut Scheduler,
    reg: &mut Registry,
    record: CommandRecord,
) -> (r: Result<CommandId, DuplicateOutputError>)
    requires
        old(reg).wf(),
        !old(scheduler).started,
        forall|k: int|
            0 <= k < old(scheduler).queue@.len() ==> (#[trigger] old(scheduler).queue@[k]).index
                < old(reg).spec_commands().len(),
    ensures
        final(reg).wf(),
        !final(scheduler).started,
        r matches Ok(cid) ==> {
            &&& cid.index == old(reg).spec_commands().len()
            &&& final(reg).spec_commands().len() == old(reg).spec_commands().len() + 1
            &&& final(scheduler).queue@ == old(scheduler).queue@.push(cid)
            &&& forall|k: int|
                0 <= k < final(scheduler).queue@.len()
                    ==> (#[trigger] final(scheduler).queue@[k]).index
                    < final(reg).spec_commands().len()
            &&& record matches CommandRecord::Custom { name, executable, args, inputs, outputs }
                ==> {
                &&& final(reg).spec_commands()[cid.index as int].name == name
                &&& final(reg).spec_commands()[cid.index as int].executor == (Executor::Process {
                    program: executable,
                    args,
                })
                &&& final(reg).spec_commands()[cid.index as int].inputs@.len() == inputs@.len()
                &&& final(reg).spec_commands()[cid.index as int].outputs@.len() == outputs@.len()
                &&& forall|k: int|
                    0 <= k < inputs@.len()
                        ==> final(reg).spec_files()[(#[trigger] final(reg).spec_commands()[
                    cid.index as int].inputs@[k]).index as int].path@ == inputs@[k]@
                &&& forall|k: int|
                    0 <= k < outputs@.len()
                        ==> final(reg).spec_files()[(#[trigger] final(reg).spec_commands()[
                    cid.index as int].outputs@[k]).index as int].path@ == outputs@[k]@
            }
            &&& record matches CommandRecord::Task { name, task, args } ==> {
                &&& final(reg).spec_commands()[cid.index as int].name == name
                &&& final(reg).spec_commands()[cid.index as int].executor == (Executor::Task {
                    task,
                    args,
                })
                &&& final(reg).spec_commands()[cid.index as int].inputs@.len() == 0
                &&& final(reg).spec_commands()[cid.index as int].outputs@.len() == 0
            }
        },
        r is Err ==> *final(scheduler) == *old(scheduler) && final(reg).spec_commands() == old(
            reg,
        ).spec_commands(),
{
    match record {
        CommandRecord::Custom { name, executable, args, inputs, outputs } => {
            let ghost reg0 = *reg;
            proof {
                assert(*scheduler == *old(scheduler));
            }
            let mut ins: Vec<FileId> = Vec::new();
            let mut k: usize = 0;
            while k < inputs.len()
                invariant
                    k <= inputs@.len(),
                    ins@.len() == k,
                    reg.wf(),
                    reg.spec_commands() == reg0.spec_commands(),
                    forall|m: int|
                        0 <= m < k ==> reg.valid_file(#[trigger] ins@[m]) && reg.spec_files()[
                            ins@[m].index as int
                        ].path@ == inputs@[m]@,
                decreases inputs@.len() - k,
            {
                let id = find_or_add_file(reg, &inputs[k]);
                ins.push(id);
                k += 1;
            }
            let mut outs: Vec<FileId> = Vec::new();
            let mut k2: usize = 0;
            while k2 < outputs.len()
                invariant
                    k2 <= outputs@.len(),
                    outs@.len() == k2,
                    reg.wf(),
                    reg.spec_commands() == reg0.spec_commands(),
                    forall|m: int|
                        0 <= m < ins@.len() ==> reg.valid_file(#[trigger] ins@[m])
                            && reg.spec_files()[ins@[m].index as int].path@ == inputs@[m]@,
                    ins@.len() == inputs@.len(),
                    forall|m: int|
                        0 <= m < k2 ==> reg.valid_file(#[trigger] outs@[m]) && reg.spec_files()[
                            outs@[m].index as int
                        ].path@ == outputs@[m]@,
                    forall|m1: int, m2: int| 0 <= m1 < m2 < k2 ==> outs@[m1] != outs@[m2],
                decreases outputs@.len() - k2,
            {
                let id = find_or_add_file(reg, &outputs[k2]);
                // a path declared twice as output of this same command is a
                // duplicate declaration
                let mut m: usize = 0;
                while m < outs.len()
                    invariant
                        m <= outs@.len(),
                        forall|m2: int| 0 <= m2 < m ==> outs@[m2] != id,
                    decreases outs@.len() - m,
                {
                    if outs[m] == id {
                        return Err(DuplicateOutputError { file: id });
                    }
                    m += 1;
                }
                outs.push(id);
                k2 += 1;
            }
            let executor = Executor::Process { program: executable, args };
            match reg.add_command(name, executor, ins, outs, Vec::new()) {
                Ok(cid) => {
                    proof {
                        if scheduler.queue@.contains(cid) {
                            let kq = choose|kq: int|
                                0 <= kq < scheduler.queue@.len() && scheduler.queue@[kq] == cid;
                        }
                    }
                    scheduler.push(cid);
                    Ok(cid)
                },
                Err(e) => Err(e),
            }
        },
        CommandRecord::Task { name, task, args } => {
            let executor = Executor::Task { task, args };
            match reg.add_command(name, executor, Vec::new(), Vec::new(), Vec::new()) {
                Ok(cid) => {
                    proof {
                        if scheduler.queue@.contains(cid) {
                            let kq = choose|kq: int|
                                0 <= kq < scheduler.queue@.len() && scheduler.queue@[kq] == cid;
                        }
                    }
                    scheduler.push(cid);
                    Ok(cid)
                },
                Err(e) => {
                    proof {
                        assert(false);
                    }
                    Err(e)
                },
            }
        },
    }
}

} // verus!
