//! Pick: move an untracked entry of the install base into the repository,
//! leave a link in its place, and track it in the manifest.
use vstd::prelude::*;
use crate::error::{ErrorKind, IntoIoError};
use crate::install::EntryKind;
use crate::model::{Step, pick_steps};
use crate::path::{AbsPath, Comps, RelPath, spec_to_relative};
use crate::repo::RepoInfo;

verus! {

/// One file-system operation that pick asks the caller to perform.
#[derive(Debug)]
pub enum PickOp {
    /// Create each missing directory above the path.
    MakeParents(AbsPath),
    /// Copy a file byte for byte, or a directory's whole subtree, from the
    /// first path to the second.
    Copy(EntryKind, AbsPath, AbsPath),
    /// Remove a file, or a directory recursively.
    Remove(EntryKind, AbsPath),
    /// Create at the first path a link to the second.
    Link(AbsPath, AbsPath),
}

impl View for PickOp {
    type V = Step;

    open spec fn view(&self) -> Step {
        match self {
            PickOp::MakeParents(p) => Step::MakeParents(p@),
            PickOp::Copy(k, from, to) => Step::Copy(*k, from@, to@),
            PickOp::Remove(k, at) => Step::Remove(*k, at@),
            PickOp::Link(at, target) => Step::Link(at@, target@),
        }
    }
}

pub open spec fn op_views(v: Seq<PickOp>) -> Seq<Step> {
    v.map_values(|o: PickOp| o@)
}

/// How pick treats the entry it was asked for.
#[derive(Debug, Clone, Copy, PartialEq, Eq, Structural)]
pub enum PickStart {
    /// The entry is already a link: nothing to move.
    Skip,
    /// Move the entry, of this kind.
    Pick(EntryKind),
}

/// Classifies a requested entry from what the file system says of it.
pub fn classify_pick(is_symlink: bool, is_file: bool, is_dir: bool) -> (r: Result<PickStart, ErrorKind>)
    ensures
        is_symlink ==> r == Ok::<PickStart, ErrorKind>(PickStart::Skip),
        !is_symlink && is_file ==> r == Ok::<PickStart, ErrorKind>(PickStart::Pick(EntryKind::File)),
        !is_symlink && !is_file && is_dir ==> r == Ok::<PickStart, ErrorKind>(PickStart::Pick(EntryKind::Dir)),
        !is_symlink && !is_file && !is_dir ==> r == Err::<PickStart, ErrorKind>(ErrorKind::NotFileOrDir),
{
    if is_symlink {
        Ok(PickStart::Skip)
    } else if is_file {
        Ok(PickStart::Pick(EntryKind::File))
    } else if is_dir {
        Ok(PickStart::Pick(EntryKind::Dir))
    } else {
        Err(ErrorKind::NotFileOrDir)
    }
}

/// Whether `rel` is tracked already under the other kind.
pub open spec fn conflicts(info: RepoInfo, kind: EntryKind, rel: Comps) -> bool {
    match kind {
        EntryKind::File => info.dir_set().contains(rel),
        EntryKind::Dir => info.file_set().contains(rel),
    }
}

/// The work of picking one entry.
#[derive(Debug)]
pub struct PickPlan {
    pub kind: EntryKind,
    /// The entry's path relative to the install base (and to the repository).
    pub rel: RelPath,
    /// The operations, to be performed in order, stopping at the first
    /// failure.
    pub ops: Vec<PickOp>,
}

/// Plans the pick of `path` (resolved against the install base) as an
/// entry of `kind`: copy into the repository at the same relative place,
/// remove the entry from the install base, link its place to the copy. Fails where
/// the path does not resolve under the install base, or where it is
/// tracked already under the other kind.
pub fn plan_pick(repository: &AbsPath, install_base: &AbsPath, path: &str, kind: EntryKind, info: &RepoInfo) -> (r: Result<PickPlan, ErrorKind>)
    ensures
        match spec_to_relative(path@, install_base@) {
            Err(e) => r == Err::<PickPlan, ErrorKind>(e.spec_into_ioerr()),
            Ok(rel) => if conflicts(*info, kind, rel) {
                r == Err::<PickPlan, ErrorKind>(ErrorKind::ConflictingEntry)
            } else {
                r matches Ok(plan) && plan.kind == kind && plan.rel@ == rel
                    && (install_base.wf() ==> plan.rel.wf())
                    && op_views(plan.ops@) == pick_steps(kind, install_base@ + rel, repository@ + rel)
            },
        },
{
    let rel = match RelPath::with_virtual_working_dir(path, install_base) {
        Ok(rel) => rel,
        Err(e) => {
            return Err(e.into_ioerr());
        },
    };
    let conflicting = match kind {
        EntryKind::File => info.has_dir(&rel),
        EntryKind::Dir => info.has_file(&rel),
    };
    if conflicting {
        return Err(ErrorKind::ConflictingEntry);
    }
    let in_base = install_base.join(&rel);
    let in_repo = repository.join(&rel);
    let mut ops: Vec<PickOp> = Vec::new();
    ops.push(PickOp::MakeParents(in_repo.copy_path()));
    ops.push(PickOp::Copy(kind, in_base.copy_path(), in_repo.copy_path()));
    ops.push(PickOp::Remove(kind, in_base.copy_path()));
    ops.push(PickOp::Link(in_base, in_repo));
    assert(op_views(ops@) =~= pick_steps(kind, install_base@ + rel@, repository@ + rel@));
    Ok(PickPlan { kind, rel, ops })
}

/// The error that a failed operation gives.
pub open spec fn spec_op_failure(op: PickOp, cause: String) -> ErrorKind {
    match op {
        PickOp::MakeParents(_) => ErrorKind::CopyFailed(cause),
        PickOp::Copy(_, _, _) => ErrorKind::CopyFailed(cause),
        PickOp::Remove(_, _) => ErrorKind::RemoveFailed(cause),
        PickOp::Link(_, _) => ErrorKind::LinkFailed(cause),
    }
}

/// What a pick does after one of its operations was performed.
#[derive(Debug, Clone, PartialEq, Eq)]
pub enum PickNext {
    /// Perform the operation at this index.
    Run(usize),
    /// Every operation succeeded: the entry can be tracked.
    Finished,
    /// The operation failed: the pick stops here, with this error, and no
    /// later operation is performed.
    Failed(ErrorKind),
}

/// The step of a pick: operation `done` of the plan was performed with
/// `outcome`. Success moves to the next operation, or finishes after the
/// last; a failure ends the pick with the error naming that operation.
pub fn pick_next(plan: &PickPlan, done: usize, outcome: Result<(), String>) -> (r: PickNext)
    requires
        done < plan.ops@.len(),
    ensures
        match outcome {
            Ok(()) => if done + 1 < plan.ops@.len() {
                r == PickNext::Run((done + 1) as usize)
            } else {
                r == PickNext::Finished
            },
            Err(c) => r == PickNext::Failed(spec_op_failure(plan.ops@[done as int], c)),
        },
{
    match outcome {
        Ok(()) => if done < plan.ops.len() - 1 {
            PickNext::Run(done + 1)
        } else {
            PickNext::Finished
        },
        Err(c) => PickNext::Failed(op_failure(&plan.ops[done], c)),
    }
}

/// The error for an operation of a pick that failed with `cause`: it names
/// the step, since each leaves the file system in a different state.
pub fn op_failure(op: &PickOp, cause: String) -> (r: ErrorKind)
    ensures
        r == spec_op_failure(*op, cause),
{
    match op {
        PickOp::MakeParents(_) => ErrorKind::CopyFailed(cause),
        PickOp::Copy(_, _, _) => ErrorKind::CopyFailed(cause),
        PickOp::Remove(_, _) => ErrorKind::RemoveFailed(cause),
        PickOp::Link(_, _) => ErrorKind::LinkFailed(cause),
    }
}

/// Tracks a picked entry once all its operations succeeded.
pub fn finish_pick(info: &mut RepoInfo, plan: PickPlan)
    requires
        old(info).wf(),
        plan.rel.wf(),
    ensures
        final(info).wf(),
        plan.kind == EntryKind::File ==> final(info).file_set() == old(info).file_set().insert(plan.rel@)
            && final(info).dir_set() == old(info).dir_set(),
        plan.kind == EntryKind::Dir ==> final(info).dir_set() == old(info).dir_set().insert(plan.rel@)
            && final(info).file_set() == old(info).file_set(),
{
    match plan.kind {
        EntryKind::File => info.add_file(plan.rel),
        EntryKind::Dir => info.add_dir(plan.rel),
    }
}

} // verus!
