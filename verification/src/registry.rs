//! The arenas holding the full universe of files and commands for one run,
//! and the dependency edges between commands that they induce.
use vstd::prelude::*;
use crate::command::{Command, CommandId, Executor, Tag};
use crate::file::{File, FileId};
use crate::types::BlobDigest;

verus! {

/// Raised by `add_command` when an output file already has a creating
/// command: every output must be produced by exactly one command.
#[derive(Copy, Clone, Debug, PartialEq, Eq, Structural)]
pub struct DuplicateOutputError {
    pub file: FileId,
}

/// Append-only arenas of files and commands. Entities live for the whole run;
/// identifiers index densely into the arenas.
pub struct Registry {
    pub files: Vec<File>,
    pub commands: Vec<Command>,
}

impl Registry {
    /// Identifiers stored in entities match their arena positions, every
    /// cross-reference is in range, and a file's `creating_command` points
    /// back to a command listing it as output (and conversely).
    pub open spec fn wf(self) -> bool {
        &&& forall|i: int|
            0 <= i < self.files@.len() ==> (#[trigger] self.files@[i]).id.index == i
        &&& forall|j: int|
            0 <= j < self.commands@.len() ==> (#[trigger] self.commands@[j]).id.index == j
        &&& forall|j: int, k: int|
            0 <= j < self.commands@.len() && 0 <= k < (#[trigger] self.commands@[j]).inputs@.len()
                ==> (#[trigger] self.commands@[j].inputs@[k]).index < self.files@.len()
        &&& forall|j: int, k: int|
            0 <= j < self.commands@.len() && 0 <= k < (#[trigger] self.commands@[j]).outputs@.len()
                ==> (#[trigger] self.commands@[j].outputs@[k]).index < self.files@.len()
        &&& forall|i: int|
            0 <= i < self.files@.len() && (#[trigger] self.files@[i]).creating_command is Some
                ==> self.files@[i].creating_command->0.index < self.commands@.len()
        &&& forall|j: int, k: int|
            0 <= j < self.commands@.len() && 0 <= k < self.commands@[j].outputs@.len()
                ==> self.files@[(#[trigger] self.commands@[j].outputs@[k]).index as int]
                    .creating_command == Some(self.commands@[j].id)
        &&& forall|j: int, k1: int, k2: int|
            #![trigger self.commands@[j].outputs@[k1], self.commands@[j].outputs@[k2]]
            0 <= j < self.commands@.len() && 0 <= k1 < k2 < self.commands@[j].outputs@.len()
                ==> self.commands@[j].outputs@[k1] != self.commands@[j].outputs@[k2]
    }

    pub open spec fn spec_files(self) -> Seq<File> {
        self.files@
    }

    pub open spec fn spec_commands(self) -> Seq<Command> {
        self.commands@
    }

    pub open spec fn valid_file(self, id: FileId) -> bool {
        id.index < self.files@.len()
    }

    pub open spec fn valid_command(self, id: CommandId) -> bool {
        id.index < self.commands@.len()
    }

    pub fn new() -> (r: Registry)
        ensures
            r.wf(),
            r.spec_files().len() == 0,
            r.spec_commands().len() == 0,
    {
        Registry { files: Vec::new(), commands: Vec::new() }
    }

    pub fn file_count(&self) -> (n: usize)
        ensures
            n == self.spec_files().len(),
    {
        self.files.len()
    }

    pub fn command_count(&self) -> (n: usize)
        ensures
            n == self.spec_commands().len(),
    {
        self.commands.len()
    }

    pub fn file(&self, id: FileId) -> (f: &File)
        requires
            self.valid_file(id),
        ensures
            *f == self.spec_files()[id.index as int],
    {
        &self.files[id.index]
    }

    pub fn command(&self, id: CommandId) -> (c: &Command)
        requires
            self.valid_command(id),
        ensures
            *c == self.spec_commands()[id.index as int],
    {
        &self.commands[id.index]
    }

    /// Registers an input or anticipated-output file. Its `creating_command`
    /// is absent until some command declares it as output.
    pub fn add_file(&mut self, arg: String, path: String) -> (id: FileId)
        requires
            old(self).wf(),
        ensures
            final(self).wf(),
            id.index == old(self).spec_files().len(),
            final(self).spec_files().len() == old(self).spec_files().len() + 1,
            final(self).spec_files()[id.index as int].arg == arg,
            final(self).spec_files()[id.index as int].path == path,
            final(self).spec_files()[id.index as int].creating_command is None,
            final(self).spec_files()[id.index as int].digest is None,
            forall|i: int|
                0 <= i < old(self).spec_files().len()
                    ==> final(self).spec_files()[i] == old(self).spec_files()[i],
            final(self).spec_commands() == old(self).spec_commands(),
    {
        let id = FileId { index: self.files.len() };
        self.files.push(File { id, arg, path, creating_command: None, digest: None });
        id
    }

    /// Sets the digest of a file once its content is known.
    pub fn set_digest(&mut self, id: FileId, digest: BlobDigest)
        requires
            old(self).wf(),
            old(self).valid_file(id),
        ensures
            final(self).wf(),
            final(self).spec_files().len() == old(self).spec_files().len(),
            final(self).spec_files()[id.index as int] == (File {
                digest: Some(digest),
                ..old(self).spec_files()[id.index as int]
            }),
            forall|i: int|
                0 <= i < final(self).spec_files().len() && i != id.index
                    ==> final(self).spec_files()[i] == old(self).spec_files()[i],
            final(self).spec_commands() == old(self).spec_commands(),
    {
        let f = &self.files[id.index];
        let updated = File {
            id: f.id,
            arg: f.arg.clone(),
            path: f.path.clone(),
            creating_command: f.creating_command,
            digest: Some(digest),
        };
        self.files.set(id.index, updated);
    }

    /// Registers a command and claims each declared output file. Fails with
    /// the first output file that already has a creating command, leaving the
    /// registry unchanged: every output is produced by exactly one command.
    #[verifier::rlimit(100)]
    #[verifier::loop_isolation(false)]
    pub fn add_command(
        &mut self,
        name: String,
        executor: Executor,
        inputs: Vec<FileId>,
        outputs: Vec<FileId>,
        tags: Vec<Tag>,
    ) -> (r: Result<CommandId, DuplicateOutputError>)
        requires
            old(self).wf(),
            forall|k: int|
                0 <= k < inputs@.len() ==> old(self).valid_file(#[trigger] inputs@[k]),
            forall|k: int|
                0 <= k < outputs@.len() ==> old(self).valid_file(#[trigger] outputs@[k]),
            forall|k1: int, k2: int|
                0 <= k1 < k2 < outputs@.len() ==> outputs@[k1] != outputs@[k2],
        ensures
            final(self).wf(),
            r is Err <==> exists|k: int|
                0 <= k < outputs@.len()
                    && old(self).spec_files()[(#[trigger] outputs@[k]).index as int]
                        .creating_command is Some,
            r matches Err(e) ==> {
                &&& *final(self) == *old(self)
                &&& exists|k: int|
                    0 <= k < outputs@.len() && #[trigger] outputs@[k] == e.file
                        && old(self).spec_files()[e.file.index as int].creating_command is Some
            },
            r matches Ok(cid) ==> {
                &&& cid.index == old(self).spec_commands().len()
                &&& final(self).spec_commands().len() == old(self).spec_commands().len() + 1
                &&& forall|j: int|
                    0 <= j < old(self).spec_commands().len()
                        ==> final(self).spec_commands()[j] == old(self).spec_commands()[j]
                &&& final(self).spec_commands()[cid.index as int].name == name
                &&& final(self).spec_commands()[cid.index as int].executor == executor
                &&& final(self).spec_commands()[cid.index as int].inputs == inputs
                &&& final(self).spec_commands()[cid.index as int].outputs == outputs
                &&& final(self).spec_commands()[cid.index as int].tags == tags
                &&& final(self).spec_files().len() == old(self).spec_files().len()
                &&& forall|k: int|
                    0 <= k < outputs@.len()
                        ==> final(self).spec_files()[(#[trigger] outputs@[k]).index as int]
                            == (File {
                            creating_command: Some(cid),
                            ..old(self).spec_files()[outputs@[k].index as int]
                        })
                &&& forall|i: int|
                    0 <= i < final(self).spec_files().len()
                        && !outputs@.contains(FileId { index: i as usize })
                        ==> final(self).spec_files()[i] == old(self).spec_files()[i]
            },
    {
        let mut k: usize = 0;
        while k < outputs.len()
            invariant
                k <= outputs@.len(),
                forall|m: int|
                    0 <= m < k
                        ==> self.spec_files()[(#[trigger] outputs@[m]).index as int]
                            .creating_command is None,
                *self == *old(self),
                forall|m: int|
                    0 <= m < outputs@.len() ==> old(self).valid_file(#[trigger] outputs@[m]),
            decreases outputs@.len() - k,
        {
            let fid = outputs[k];
            if self.files[fid.index].creating_command.is_some() {
                return Err(DuplicateOutputError { file: fid });
            }
            k += 1;
        }
        let cid = CommandId { index: self.commands.len() };
        self.commands.push(Command { id: cid, name, tags, inputs, outputs, executor });
        let ghost new_cmd = self.commands@[cid.index as int];
        let ghost files_before = self.files@;
        let outs = &self.commands[cid.index].outputs;
        let mut k2: usize = 0;
        while k2 < outs.len()
            invariant
                k2 <= outs@.len(),
                outs@ == self.commands@[cid.index as int].outputs@,
                self.commands@ == old(self).commands@.push(new_cmd),
                new_cmd == (Command {
                    id: cid,
                    name: new_cmd.name,
                    tags: new_cmd.tags,
                    inputs: new_cmd.inputs,
                    outputs: new_cmd.outputs,
                    executor: new_cmd.executor,
                }),
                new_cmd.name == name,
                new_cmd.tags == tags,
                new_cmd.inputs == inputs,
                new_cmd.outputs == outputs,
                new_cmd.executor == executor,
                cid.index == old(self).commands@.len(),
                self.commands@[cid.index as int].id == cid,
                forall|i: int|
                    0 <= i < self.files@.len() ==> #[trigger] self.files@[i] == files_before[i]
                        || self.files@[i] == (File {
                        creating_command: Some(cid),
                        ..files_before[i]
                    }),
                self.files@.len() == files_before.len(),
                files_before == old(self).files@,
                forall|m: int|
                    0 <= m < outs@.len() ==> (#[trigger] outs@[m]).index < self.files@.len(),
                forall|m1: int, m2: int|
                    0 <= m1 < m2 < outs@.len() ==> outs@[m1] != outs@[m2],
                forall|m: int|
                    0 <= m < outs@.len()
                        ==> files_before[(#[trigger] outs@[m]).index as int]
                            .creating_command is None,
                forall|m: int|
                    0 <= m < k2
                        ==> self.files@[(#[trigger] outs@[m]).index as int]
                            == (File {
                            creating_command: Some(cid),
                            ..files_before[outs@[m].index as int]
                        }),
                forall|i: int|
                    0 <= i < self.files@.len() && !outs@.subrange(0, k2 as int).contains(
                        FileId { index: i as usize },
                    ) ==> self.files@[i] == files_before[i],
                old(self).wf(),
            decreases outs@.len() - k2,
        {
            let fid = outs[k2];
            let f = &self.files[fid.index];
            let updated = File {
                id: f.id,
                arg: f.arg.clone(),
                path: f.path.clone(),
                creating_command: Some(cid),
                digest: f.digest,
            };
            let ghost pre = self.files@;
            self.files.set(fid.index, updated);
            proof {
                assert(outs@.subrange(0, k2 as int + 1).drop_last() == outs@.subrange(
                    0,
                    k2 as int,
                ));
                assert forall|i: int|
                    0 <= i < self.files@.len() && !outs@.subrange(0, k2 as int + 1).contains(
                        FileId { index: i as usize },
                    ) implies self.files@[i] == files_before[i] by {
                    if i != fid.index {
                        assert(!outs@.subrange(0, k2 as int).contains(
                            FileId { index: i as usize },
                        ));
                    } else {
                        assert(outs@.subrange(0, k2 as int + 1)[k2 as int] == FileId {
                            index: i as usize,
                        });
                    }
                }
            }
            k2 += 1;
        }
        proof {
            assert forall|j: int, k: int|
                0 <= j < self.commands@.len() && 0 <= k
                    < self.commands@[j].outputs@.len() implies self.files@[(
            #[trigger] self.commands@[j].outputs@[k]).index as int].creating_command == Some(
                self.commands@[j].id,
            ) by {
                if j < old(self).commands@.len() {
                    let fi = self.commands@[j].outputs@[k].index as int;
                    if outs@.contains(FileId { index: fi as usize }) {
                        let m = choose|m: int|
                            0 <= m < outs@.len() && outs@[m] == FileId { index: fi as usize };
                        assert(self.files@[fi].creating_command == Some(cid));
                        assert(files_before[fi].creating_command is None);
                        assert(old(self).files@[fi].creating_command == Some(
                            old(self).commands@[j].id,
                        ));
                    } else {
                        assert(outs@.subrange(0, outs@.len() as int) == outs@);
                        assert(self.files@[fi] == files_before[fi]);
                    }
                } else {
                    assert(outs@.subrange(0, outs@.len() as int) == outs@);
                }
            }
            assert forall|i: int|
                0 <= i < self.files@.len() && (#[trigger] self.files@[i]).creating_command is Some
                    implies self.files@[i].creating_command->0.index < self.commands@.len() by {
                assert(outs@.subrange(0, outs@.len() as int) == outs@);
                if !outs@.contains(FileId { index: i as usize }) {
                    assert(self.files@[i] == files_before[i]);
                }
            }
            assert(outs@.subrange(0, outs@.len() as int) == outs@);
        }
        Ok(cid)
    }

    /// Resolves the content digests of `command`'s input files, in input
    /// order; `None` when any input's content is not known yet.
    pub fn resolve_input_digests(&self, command: CommandId) -> (r: Option<Vec<BlobDigest>>)
        requires
            self.wf(),
            self.valid_command(command),
        ensures
            match r {
                Some(v) => resolved_digests(
                    self.spec_files(),
                    self.spec_commands()[command.index as int].inputs@,
                ) == Some(v@),
                None => resolved_digests(
                    self.spec_files(),
                    self.spec_commands()[command.index as int].inputs@,
                ) is None,
            },
    {
        let c = &self.commands[command.index];
        let mut r: Vec<BlobDigest> = Vec::new();
        let mut k: usize = 0;
        while k < c.inputs.len()
            invariant
                k <= c.inputs@.len(),
                c == &self.commands@[command.index as int],
                self.wf(),
                self.valid_command(command),
                resolved_digests(self.files@, c.inputs@.subrange(0, k as int)) == Some(r@),
            decreases c.inputs@.len() - k,
        {
            let fid = c.inputs[k];
            proof {
                assert(c.inputs@.subrange(0, k as int + 1).drop_last() == c.inputs@.subrange(
                    0,
                    k as int,
                ));
                assert(c.inputs@.subrange(0, k as int + 1).last() == c.inputs@[k as int]);
            }
            match self.files[fid.index].digest {
                Some(d) => {
                    r.push(d);
                },
                None => {
                    proof {
                        lemma_resolved_digests_none(self.files@, c.inputs@, k as int);
                    }
                    return None;
                },
            }
            k += 1;
        }
        proof {
            assert(c.inputs@.subrange(0, c.inputs@.len() as int) == c.inputs@);
        }
        Some(r)
    }

    /// Writes one digest per declared output file of `command`, in output
    /// order; all other files are untouched.
    pub fn materialize_output_digests(&mut self, command: CommandId, digests: &Vec<BlobDigest>)
        requires
            old(self).wf(),
            old(self).valid_command(command),
            digests@.len() == old(self).spec_commands()[command.index as int].outputs@.len(),
        ensures
            final(self).wf(),
            final(self).spec_commands() == old(self).spec_commands(),
            final(self).spec_files().len() == old(self).spec_files().len(),
            forall|k: int|
                0 <= k < digests@.len()
                    ==> final(self).spec_files()[(#[trigger] old(self).spec_commands()[
                command.index as int].outputs@[k]).index as int].digest == Some(digests@[k]),
            forall|i: int|
                0 <= i < final(self).spec_files().len() && !old(self).spec_commands()[
                    command.index as int
                ].outputs@.contains(FileId { index: i as usize }) ==> final(self).spec_files()[i]
                    == old(self).spec_files()[i],
            forall|i: int|
                0 <= i < final(self).spec_files().len()
                    ==> (#[trigger] final(self).spec_files()[i]).creating_command
                    == old(self).spec_files()[i].creating_command
                    && final(self).spec_files()[i].arg == old(self).spec_files()[i].arg
                    && final(self).spec_files()[i].path == old(self).spec_files()[i].path
                    && final(self).spec_files()[i].id == old(self).spec_files()[i].id,
    {
        let n = self.commands[command.index].outputs.len();
        let ghost outs = self.commands@[command.index as int].outputs@;
        let mut k: usize = 0;
        while k < n
            invariant
                k <= n,
                self.wf(),
                self.valid_command(command),
                n == outs.len(),
                digests@.len() == outs.len(),
                outs == self.commands@[command.index as int].outputs@,
                self.commands@ == old(self).commands@,
                self.files@.len() == old(self).files@.len(),
                forall|m: int|
                    0 <= m < k ==> self.files@[(#[trigger] outs[m]).index as int].digest == Some(
                        digests@[m],
                    ),
                forall|i: int|
                    0 <= i < self.files@.len() && !outs.subrange(0, k as int).contains(
                        FileId { index: i as usize },
                    ) ==> self.files@[i] == old(self).files@[i],
                forall|i: int|
                    0 <= i < self.files@.len() ==> (#[trigger] self.files@[i]).creating_command
                        == old(self).files@[i].creating_command && self.files@[i].arg == old(
                        self,
                    ).files@[i].arg && self.files@[i].path == old(self).files@[i].path
                        && self.files@[i].id == old(self).files@[i].id,
            decreases n - k,
        {
            let fid = self.commands[command.index].outputs[k];
            let ghost files_pre = self.files@;
            self.set_digest(fid, digests[k]);
            proof {
                assert(outs.subrange(0, k as int + 1).drop_last() == outs.subrange(0, k as int));
                assert forall|m: int| 0 <= m < k + 1 implies self.files@[(
                #[trigger] outs[m]).index as int].digest == Some(digests@[m]) by {
                    if m < k {
                        // later outputs are distinct files, so earlier digests stay
                        assert(outs[m] != outs[k as int]);
                        assert(outs[m].index != outs[k as int].index);
                        assert(self.files@[outs[m].index as int] == files_pre[
                            outs[m].index as int]);
                    }
                }
                assert forall|i: int|
                    0 <= i < self.files@.len() && !outs.subrange(0, k as int + 1).contains(
                        FileId { index: i as usize },
                    ) implies self.files@[i] == old(self).files@[i] by {
                    assert(!outs.subrange(0, k as int).contains(FileId { index: i as usize }));
                    if i == fid.index {
                        assert(outs.subrange(0, k as int + 1)[k as int] == FileId {
                            index: i as usize,
                        });
                    }
                }
            }
            k += 1;
        }
        proof {
            assert(outs.subrange(0, outs.len() as int) == outs);
        }
    }

    /// For each input file of `command` that has a creating command, yields
    /// that command: the edge set used for execution ordering.
    pub fn dependency_edges(&self, command: CommandId) -> (r: Vec<CommandId>)
        requires
            self.wf(),
            self.valid_command(command),
        ensures
            r@ == dep_edges_seq(
                self.spec_files(),
                self.spec_commands()[command.index as int].inputs@,
            ),
    {
        let c = &self.commands[command.index];
        let mut r: Vec<CommandId> = Vec::new();
        let mut k: usize = 0;
        while k < c.inputs.len()
            invariant
                k <= c.inputs@.len(),
                c == &self.commands@[command.index as int],
                self.wf(),
                self.valid_command(command),
                r@ == dep_edges_seq(self.files@, c.inputs@.subrange(0, k as int)),
            decreases c.inputs@.len() - k,
        {
            let fid = c.inputs[k];
            proof {
                assert(c.inputs@.subrange(0, k as int + 1).drop_last() == c.inputs@.subrange(
                    0,
                    k as int,
                ));
                assert(c.inputs@.subrange(0, k as int + 1).last() == c.inputs@[k as int]);
            }
            match self.files[fid.index].creating_command {
                Some(dep) => {
                    r.push(dep);
                },
                None => {},
            }
            k += 1;
        }
        proof {
            assert(c.inputs@.subrange(0, c.inputs@.len() as int) == c.inputs@);
        }
        r
    }
}

/// The digests of `inputs`, in order, or `None` as soon as any input file has
/// no digest yet (its content is not known, so no cache key can be formed).
pub open spec fn resolved_digests(files: Seq<File>, inputs: Seq<FileId>) -> Option<Seq<BlobDigest>>
    decreases inputs.len(),
{
    if inputs.len() == 0 {
        Some(Seq::empty())
    } else {
        match resolved_digests(files, inputs.drop_last()) {
            Some(rest) => if inputs.last().index < files.len() {
                match files[inputs.last().index as int].digest {
                    Some(d) => Some(rest.push(d)),
                    None => None,
                }
            } else {
                None
            },
            None => None,
        }
    }
}

/// A single unresolvable input makes the whole resolution fail.
proof fn lemma_resolved_digests_none(files: Seq<File>, inputs: Seq<FileId>, k: int)
    requires
        0 <= k < inputs.len(),
        inputs[k].index >= files.len() || files[inputs[k].index as int].digest is None,
    ensures
        resolved_digests(files, inputs) is None,
    decreases inputs.len(),
{
    if k == inputs.len() - 1 {
        assert(inputs.last() == inputs[k]);
    } else {
        assert(inputs.drop_last()[k] == inputs[k]);
        lemma_resolved_digests_none(files, inputs.drop_last(), k);
    }
}

/// The creating commands of `inputs`, in input order, skipping root inputs.
pub open spec fn dep_edges_seq(files: Seq<File>, inputs: Seq<FileId>) -> Seq<CommandId>
    decreases inputs.len(),
{
    if inputs.len() == 0 {
        Seq::empty()
    } else {
        let rest = dep_edges_seq(files, inputs.drop_last());
        if inputs.last().index < files.len() {
            match files[inputs.last().index as int].creating_command {
                Some(c) => rest.push(c),
                None => rest,
            }
        } else {
            rest
        }
    }
}

/// Dependency edges only read which command creates each file, so writing
/// digests leaves them unchanged.
pub proof fn lemma_dep_edges_digest_only(files1: Seq<File>, files2: Seq<File>, inputs: Seq<FileId>)
    requires
        files1.len() == files2.len(),
        forall|i: int|
            0 <= i < files1.len() ==> (#[trigger] files1[i]).creating_command
                == files2[i].creating_command,
    ensures
        dep_edges_seq(files1, inputs) == dep_edges_seq(files2, inputs),
    decreases inputs.len(),
{
    if inputs.len() > 0 {
        lemma_dep_edges_digest_only(files1, files2, inputs.drop_last());
    }
}

/// Command `to` produces an input file of command `from` (both given by
/// arena index): the dependency relation that orders execution.
pub open spec fn has_edge(reg: Registry, from: int, to: int) -> bool {
    exists|k: int|
        0 <= k < reg.spec_commands()[from].inputs@.len()
            && (#[trigger] reg.spec_commands()[from].inputs@[k]).index < reg.spec_files().len()
            && reg.spec_files()[reg.spec_commands()[from].inputs@[k].index as int].creating_command
            == Some(CommandId { index: to as usize })
}

/// At most one command declares any file as output: if two registered
/// commands both list the same file among their outputs, they are the same
/// command.
pub proof fn lemma_unique_output_owner(reg: Registry, j1: int, j2: int, k1: int, k2: int)
    requires
        reg.wf(),
        0 <= j1 < reg.spec_commands().len(),
        0 <= j2 < reg.spec_commands().len(),
        0 <= k1 < reg.spec_commands()[j1].outputs@.len(),
        0 <= k2 < reg.spec_commands()[j2].outputs@.len(),
        reg.spec_commands()[j1].outputs@[k1] == reg.spec_commands()[j2].outputs@[k2],
    ensures
        j1 == j2,
{
    let fi = reg.spec_commands()[j1].outputs@[k1].index as int;
    assert(reg.spec_files()[fi].creating_command == Some(reg.spec_commands()[j1].id));
    assert(reg.spec_files()[fi].creating_command == Some(reg.spec_commands()[j2].id));
}

} // verus!
