//! Install: for each tracked path, link the install base's copy to the
//! repository's unless something already stands there; and the tally of a
//! batch of outcomes.
use vstd::prelude::*;
use crate::error::ErrorKind;
use crate::path::{AbsPath, Comps, RelPath};
use crate::repo::{RepoInfo, views};

verus! {

/// Whether a tracked path is a file or a directory.
#[derive(Debug, Clone, Copy, PartialEq, Eq, Structural)]
pub enum EntryKind {
    File,
    Dir,
}

/// Why an entry was left alone.
#[derive(Debug, Clone, Copy, PartialEq, Eq, Structural)]
pub enum SkipReason {
    /// Something already exists at the target location.
    AlreadyInstalled,
}

/// The outcome of one item of a batch.
#[derive(Debug, Clone, PartialEq, Eq)]
pub enum InstallStatus {
    Installed,
    Skipped(SkipReason),
    Error(ErrorKind),
}

impl SkipReason {
    pub open spec fn spec_text(&self) -> Seq<char> {
        match self {
            SkipReason::AlreadyInstalled => "AlreadyInstalled"@,
        }
    }

    /// The reason's name.
    pub fn text(&self) -> (r: String)
        ensures
            r@ == self.spec_text(),
    {
        match self {
            SkipReason::AlreadyInstalled => String::from_str("AlreadyInstalled"),
        }
    }
}

impl InstallStatus {
    /// A copy of this status.
    pub fn clone_status(&self) -> (r: InstallStatus)
        ensures
            r == *self,
    {
        match self {
            InstallStatus::Installed => InstallStatus::Installed,
            InstallStatus::Skipped(reason) => InstallStatus::Skipped(*reason),
            InstallStatus::Error(e) => InstallStatus::Error(e.clone_error()),
        }
    }

    pub open spec fn spec_text(&self) -> Seq<char> {
        match self {
            InstallStatus::Installed => "Done"@,
            InstallStatus::Skipped(reason) => "Skipped. reason: "@ + reason.spec_text(),
            InstallStatus::Error(e) => "Error: "@ + e.spec_text(),
        }
    }

    /// The line reported for an item's outcome.
    pub fn text(&self) -> (r: String)
        ensures
            r@ == self.spec_text(),
    {
        match self {
            InstallStatus::Installed => String::from_str("Done"),
            InstallStatus::Skipped(reason) => String::from_str("Skipped. reason: ").concat(reason.text().as_str()),
            InstallStatus::Error(e) => String::from_str("Error: ").concat(e.text().as_str()),
        }
    }
}

/// What install does for one entry, once it knows whether the target exists.
#[derive(Debug, Clone, Copy, PartialEq, Eq, Structural)]
pub enum InstallAction {
    /// Leave the existing target alone.
    Skip,
    /// Create the target's missing parents, then a link to the source.
    Link,
}

/// The primitive that links to a file, or the one that links to a directory.
#[derive(Debug, Clone, Copy, PartialEq, Eq, Structural)]
pub enum LinkKind {
    File,
    Dir,
}

/// One tracked entry: `src` in the repository, `dst` in the install base.
#[derive(Debug)]
pub struct InstallTask {
    pub kind: EntryKind,
    pub rel: RelPath,
    pub src: AbsPath,
    pub dst: AbsPath,
}

impl View for InstallTask {
    type V = (Comps, Comps);

    /// The pair (source, target).
    open spec fn view(&self) -> (Comps, Comps) {
        (self.src@, self.dst@)
    }
}

/// The (source, target) pair of a tracked relative path.
pub open spec fn task_of(repository: Comps, install_base: Comps, rel: Comps) -> (Comps, Comps) {
    (repository + rel, install_base + rel)
}

/// The pairs of a run over `rels`, in order.
pub open spec fn tasks_of(repository: Comps, install_base: Comps, rels: Seq<Comps>) -> Seq<(Comps, Comps)> {
    rels.map_values(|rel: Comps| task_of(repository, install_base, rel))
}

pub open spec fn task_views(v: Seq<InstallTask>) -> Seq<(Comps, Comps)> {
    v.map_values(|t: InstallTask| t@)
}

/// The decision for one entry: never touch an existing target.
pub open spec fn spec_decide(dst_exists: bool) -> InstallAction {
    if dst_exists {
        InstallAction::Skip
    } else {
        InstallAction::Link
    }
}

/// Decides what install does for an entry whose target does or does not
/// exist (of any type).
pub fn decide_install(dst_exists: bool) -> (r: InstallAction)
    ensures
        r == spec_decide(dst_exists),
        dst_exists ==> r == InstallAction::Skip,
{
    if dst_exists {
        InstallAction::Skip
    } else {
        InstallAction::Link
    }
}

/// The status that a decision leads to, given how the link creation went.
pub open spec fn spec_status(action: InstallAction, link: Result<(), ErrorKind>) -> InstallStatus {
    match action {
        InstallAction::Skip => InstallStatus::Skipped(SkipReason::AlreadyInstalled),
        InstallAction::Link => match link {
            Ok(()) => InstallStatus::Installed,
            Err(e) => InstallStatus::Error(e),
        },
    }
}

/// The status that a decision leads to, given how the link creation went
/// (`link` is not read for `Skip`).
pub fn status_of(action: InstallAction, link: Result<(), ErrorKind>) -> (r: InstallStatus)
    ensures
        r == spec_status(action, link),
        action == InstallAction::Skip ==> r == InstallStatus::Skipped(SkipReason::AlreadyInstalled),
        action == InstallAction::Link ==> match link {
            Ok(()) => r == InstallStatus::Installed,
            Err(e) => r == InstallStatus::Error(e),
        },
{
    match action {
        InstallAction::Skip => InstallStatus::Skipped(SkipReason::AlreadyInstalled),
        InstallAction::Link => match link {
            Ok(()) => InstallStatus::Installed,
            Err(e) => InstallStatus::Error(e),
        },
    }
}

/// The link primitive for a source that is a file or a directory; a source
/// that is neither cannot be linked.
pub fn link_kind(src_is_file: bool, src_is_dir: bool) -> (r: Result<LinkKind, ErrorKind>)
    ensures
        src_is_file ==> r == Ok::<LinkKind, ErrorKind>(LinkKind::File),
        !src_is_file && src_is_dir ==> r == Ok::<LinkKind, ErrorKind>(LinkKind::Dir),
        !src_is_file && !src_is_dir ==> r == Err::<LinkKind, ErrorKind>(ErrorKind::NotFileOrDir),
{
    if src_is_file {
        Ok(LinkKind::File)
    } else if src_is_dir {
        Ok(LinkKind::Dir)
    } else {
        Err(ErrorKind::NotFileOrDir)
    }
}

/// Appends the tasks of `rels` to `out`.
fn push_tasks(out: &mut Vec<InstallTask>, repository: &AbsPath, install_base: &AbsPath, rels: &Vec<RelPath>, kind: EntryKind)
    ensures
        final(out)@.len() == old(out)@.len() + rels@.len(),
        forall|i: int| 0 <= i < old(out)@.len() ==> #[trigger] final(out)@[i] == old(out)@[i],
        forall|i: int| 0 <= i < rels@.len() ==> {
            let t = #[trigger] final(out)@[old(out)@.len() + i];
            &&& t.kind == kind
            &&& t.rel@ == rels@[i]@
            &&& t@ == task_of(repository@, install_base@, rels@[i]@)
        },
{
    let ghost start = out@;
    let mut i: usize = 0;
    while i < rels.len()
        invariant
            i <= rels.len(),
            out@.len() == start.len() + i,
            forall|j: int| 0 <= j < start.len() ==> #[trigger] out@[j] == start[j],
            forall|j: int| 0 <= j < i ==> {
                let t = #[trigger] out@[start.len() + j];
                &&& t.kind == kind
                &&& t.rel@ == rels@[j]@
                &&& t@ == task_of(repository@, install_base@, rels@[j]@)
            },
        decreases rels.len() - i,
    {
        let rel = &rels[i];
        let task = InstallTask {
            kind,
            rel: rel.copy_path(),
            src: repository.join(rel),
            dst: install_base.join(rel),
        };
        out.push(task);
        i = i + 1;
    }
}

/// The install plan: one task per tracked file, then one per tracked
/// directory, in the manifest's order. A directory is linked as one unit.
pub fn plan_install(repository: &AbsPath, install_base: &AbsPath, info: &RepoInfo) -> (r: Vec<InstallTask>)
    ensures
        task_views(r@) == tasks_of(repository@, install_base@, views(info.files@) + views(info.dirs@)),
        r@.len() == info.files@.len() + info.dirs@.len(),
        forall|i: int| 0 <= i < info.files@.len() ==> (#[trigger] r@[i]).kind == EntryKind::File
            && r@[i].rel@ == info.files@[i]@,
        forall|i: int| 0 <= i < info.dirs@.len() ==> (#[trigger] r@[info.files@.len() + i]).kind == EntryKind::Dir
            && r@[info.files@.len() + i].rel@ == info.dirs@[i]@,
{
    let mut r: Vec<InstallTask> = Vec::new();
    push_tasks(&mut r, repository, install_base, &info.files, EntryKind::File);
    push_tasks(&mut r, repository, install_base, &info.dirs, EntryKind::Dir);
    let ghost nf = info.files@.len();
    assert forall|i: int| 0 <= i < nf implies (#[trigger] r@[i]).kind == EntryKind::File
        && r@[i].rel@ == info.files@[i]@ by {
        assert(r@[i] == r@[0 + i]);
    }
    assert(task_views(r@) =~= tasks_of(repository@, install_base@, views(info.files@) + views(info.dirs@))) by {
        assert forall|i: int| 0 <= i < r@.len() implies task_views(r@)[i] == tasks_of(repository@, install_base@, views(info.files@) + views(info.dirs@))[i] by {
            if i < nf {
                assert(r@[i] == r@[0 + i]);
            } else {
                assert(r@[i] == r@[nf + (i - nf)]);
            }
        }
    }
    r
}

/// The character of a decimal digit.
pub open spec fn digit_char(d: nat) -> char {
    if d == 0 {
        '0'
    } else if d == 1 {
        '1'
    } else if d == 2 {
        '2'
    } else if d == 3 {
        '3'
    } else if d == 4 {
        '4'
    } else if d == 5 {
        '5'
    } else if d == 6 {
        '6'
    } else if d == 7 {
        '7'
    } else if d == 8 {
        '8'
    } else {
        '9'
    }
}

/// The decimal text of `n`, without leading zeros.
pub open spec fn decimal(n: nat) -> Seq<char>
    decreases n,
{
    if n < 10 {
        seq![digit_char(n)]
    } else {
        decimal(n / 10) + seq![digit_char(n % 10)]
    }
}

fn digit_text(d: u64) -> (r: String)
    requires
        d < 10,
    ensures
        r@ == seq![digit_char(d as nat)],
{
    proof {
        reveal_strlit("0");
        reveal_strlit("1");
        reveal_strlit("2");
        reveal_strlit("3");
        reveal_strlit("4");
        reveal_strlit("5");
        reveal_strlit("6");
        reveal_strlit("7");
        reveal_strlit("8");
        reveal_strlit("9");
    }
    let t = if d == 0 {
        "0"
    } else if d == 1 {
        "1"
    } else if d == 2 {
        "2"
    } else if d == 3 {
        "3"
    } else if d == 4 {
        "4"
    } else if d == 5 {
        "5"
    } else if d == 6 {
        "6"
    } else if d == 7 {
        "7"
    } else if d == 8 {
        "8"
    } else {
        "9"
    };
    let r = String::from_str(t);
    assert(r@ =~= seq![digit_char(d as nat)]);
    r
}

/// The decimal text of `n`.
pub fn decimal_text(n: u64) -> (r: String)
    ensures
        r@ == decimal(n as nat),
{
    let mut m: u64 = n;
    let mut s = String::new();
    loop
        invariant
            m > 0 || (m == n && s@.len() == 0),
            m <= n,
            decimal(n as nat) == decimal(m as nat) + s@,
        decreases m,
    {
        let d = digit_text(m % 10);
        let ghost prev = s@;
        s = d.concat(s.as_str());
        proof {
            if m >= 10 {
                assert(decimal(m as nat) == decimal((m / 10) as nat) + seq![digit_char((m % 10) as nat)]);
                assert(decimal(n as nat) =~= decimal((m / 10) as nat) + s@);
            } else {
                assert(decimal(m as nat) == seq![digit_char(m as nat)]);
                assert(decimal(n as nat) =~= s@);
            }
        }
        m = m / 10;
        if m == 0 {
            return s;
        }
    }
}

/// Running counts of a batch, per kind, with every error cause kept.
#[derive(Debug)]
pub struct InstallResult {
    pub files_installed: u64,
    pub files_skipped: u64,
    pub files_errored: u64,
    pub dirs_installed: u64,
    pub dirs_skipped: u64,
    pub dirs_errored: u64,
    pub errors: Vec<ErrorKind>,
}

impl InstallResult {
    /// The number of items recorded.
    pub open spec fn total(&self) -> int {
        self.files_installed + self.files_skipped + self.files_errored + self.dirs_installed
            + self.dirs_skipped + self.dirs_errored
    }

    /// The tally of an empty batch.
    pub fn new() -> (r: InstallResult)
        ensures
            r.total() == 0,
            r.files_installed == 0 && r.files_skipped == 0 && r.files_errored == 0,
            r.dirs_installed == 0 && r.dirs_skipped == 0 && r.dirs_errored == 0,
            r.errors@.len() == 0,
    {
        InstallResult {
            files_installed: 0,
            files_skipped: 0,
            files_errored: 0,
            dirs_installed: 0,
            dirs_skipped: 0,
            dirs_errored: 0,
            errors: Vec::new(),
        }
    }

    /// `after` is `before` with one outcome of `kind` counted.
    pub open spec fn recorded(before: InstallResult, after: InstallResult, kind: EntryKind, status: InstallStatus) -> bool {
        &&& after.total() == before.total() + 1
        &&& after.files_installed == before.files_installed + (if kind == EntryKind::File && status is Installed { 1int } else { 0int })
        &&& after.files_skipped == before.files_skipped + (if kind == EntryKind::File && status is Skipped { 1int } else { 0int })
        &&& after.files_errored == before.files_errored + (if kind == EntryKind::File && status is Error { 1int } else { 0int })
        &&& after.dirs_installed == before.dirs_installed + (if kind == EntryKind::Dir && status is Installed { 1int } else { 0int })
        &&& after.dirs_skipped == before.dirs_skipped + (if kind == EntryKind::Dir && status is Skipped { 1int } else { 0int })
        &&& after.dirs_errored == before.dirs_errored + (if kind == EntryKind::Dir && status is Error { 1int } else { 0int })
        &&& after.errors@ == (match status {
            InstallStatus::Error(e) => before.errors@.push(e),
            _ => before.errors@,
        })
    }

    /// Counts one outcome under its kind; an error's cause is kept, after
    /// those recorded before.
    pub fn record(&mut self, kind: EntryKind, status: InstallStatus)
        requires
            old(self).total() < u64::MAX,
        ensures
            InstallResult::recorded(*old(self), *final(self), kind, status),
            final(self).total() == old(self).total() + 1,
            final(self).files_installed == old(self).files_installed + (if kind == EntryKind::File && status is Installed { 1int } else { 0int }),
            final(self).files_skipped == old(self).files_skipped + (if kind == EntryKind::File && status is Skipped { 1int } else { 0int }),
            final(self).files_errored == old(self).files_errored + (if kind == EntryKind::File && status is Error { 1int } else { 0int }),
            final(self).dirs_installed == old(self).dirs_installed + (if kind == EntryKind::Dir && status is Installed { 1int } else { 0int }),
            final(self).dirs_skipped == old(self).dirs_skipped + (if kind == EntryKind::Dir && status is Skipped { 1int } else { 0int }),
            final(self).dirs_errored == old(self).dirs_errored + (if kind == EntryKind::Dir && status is Error { 1int } else { 0int }),
            final(self).errors@ == (match status {
                InstallStatus::Error(e) => old(self).errors@.push(e),
                _ => old(self).errors@,
            }),
    {
        match status {
            InstallStatus::Installed => match kind {
                EntryKind::File => self.files_installed = self.files_installed + 1,
                EntryKind::Dir => self.dirs_installed = self.dirs_installed + 1,
            },
            InstallStatus::Skipped(_) => match kind {
                EntryKind::File => self.files_skipped = self.files_skipped + 1,
                EntryKind::Dir => self.dirs_skipped = self.dirs_skipped + 1,
            },
            InstallStatus::Error(e) => {
                match kind {
                    EntryKind::File => self.files_errored = self.files_errored + 1,
                    EntryKind::Dir => self.dirs_errored = self.dirs_errored + 1,
                }
                self.errors.push(e);
            },
        }
    }

    /// The two lines of the batch's summary.
    pub open spec fn summary_text(&self) -> Seq<char> {
        "Installed "@ + decimal(self.files_installed as nat) + " files, "@ + decimal(self.files_skipped as nat)
            + " skipped, "@ + decimal(self.files_errored as nat) + " errored\n"@ + "Installed "@ + decimal(
            self.dirs_installed as nat,
        ) + " directories, "@ + decimal(self.dirs_skipped as nat) + " skipped, "@ + decimal(
            self.dirs_errored as nat,
        ) + " errored\n"@
    }

    /// The counts per kind, as two lines of text.
    pub fn summary(&self) -> (r: String)
        ensures
            r@ == self.summary_text(),
    {
        let mut r = String::from_str("Installed ");
        r = r.concat(decimal_text(self.files_installed).as_str());
        r = r.concat(" files, ");
        r = r.concat(decimal_text(self.files_skipped).as_str());
        r = r.concat(" skipped, ");
        r = r.concat(decimal_text(self.files_errored).as_str());
        r = r.concat(" errored\n");
        r = r.concat("Installed ");
        r = r.concat(decimal_text(self.dirs_installed).as_str());
        r = r.concat(" directories, ");
        r = r.concat(decimal_text(self.dirs_skipped).as_str());
        r = r.concat(" skipped, ");
        r = r.concat(decimal_text(self.dirs_errored).as_str());
        r = r.concat(" errored\n");
        r
    }

    /// Items that completed (installed or picked).
    pub fn successes(&self) -> (r: u64)
        requires
            self.total() <= u64::MAX,
        ensures
            r == self.files_installed + self.dirs_installed,
    {
        self.files_installed + self.dirs_installed
    }

    /// Items that failed.
    pub fn failures(&self) -> (r: u64)
        requires
            self.total() <= u64::MAX,
        ensures
            r == self.files_errored + self.dirs_errored,
    {
        self.files_errored + self.dirs_errored
    }
}

/// An install batch in progress: the plan, the index of the next entry, and
/// the tally so far. The caller performs what each entry needs and reports
/// back through `step`; every entry is counted once, whatever its outcome,
/// and the batch always goes on to the next one.
pub struct InstallBatch {
    pub tasks: Vec<InstallTask>,
    /// The tasks before this index are files, the others directories.
    pub n_files: usize,
    pub next: usize,
    pub result: InstallResult,
}

impl InstallBatch {
    /// The files among the first `next` tasks.
    pub open spec fn files_done(&self) -> int {
        if self.next <= self.n_files {
            self.next as int
        } else {
            self.n_files as int
        }
    }

    pub open spec fn wf(&self) -> bool {
        &&& self.n_files <= self.tasks@.len()
        &&& self.next <= self.tasks@.len()
        &&& forall|i: int| 0 <= i < self.n_files ==> (#[trigger] self.tasks@[i]).kind == EntryKind::File
        &&& forall|i: int| self.n_files <= i < self.tasks@.len() ==> (#[trigger] self.tasks@[i]).kind == EntryKind::Dir
        &&& self.result.files_installed + self.result.files_skipped + self.result.files_errored == self.files_done()
        &&& self.result.dirs_installed + self.result.dirs_skipped + self.result.dirs_errored == self.next - self.files_done()
    }

    /// Starts the batch over `plan_install`'s tasks, with nothing counted.
    pub fn new(repository: &AbsPath, install_base: &AbsPath, info: &RepoInfo) -> (r: InstallBatch)
        ensures
            r.wf(),
            r.next == 0,
            r.n_files == info.files@.len(),
            task_views(r.tasks@) == tasks_of(repository@, install_base@, views(info.files@) + views(info.dirs@)),
            r.result.total() == 0,
            r.result.errors@.len() == 0,
    {
        let tasks = plan_install(repository, install_base, info);
        let n_files = info.files.len();
        assert forall|i: int| n_files <= i < tasks@.len() implies (#[trigger] tasks@[i]).kind == EntryKind::Dir by {
            assert(tasks@[i] == tasks@[info.files@.len() + (i - n_files)]);
        }
        InstallBatch { tasks, n_files, next: 0, result: InstallResult::new() }
    }

    /// The entry to handle next, if any is left.
    pub fn current(&self) -> (r: Option<&InstallTask>)
        ensures
            self.next < self.tasks@.len() ==> r == Some(&self.tasks@[self.next as int]),
            self.next >= self.tasks@.len() ==> r is None,
    {
        if self.next < self.tasks.len() {
            Some(&self.tasks[self.next])
        } else {
            None
        }
    }

    /// Records the current entry: its target did or did not exist, and
    /// `link` is how creating the link went (not read when it existed).
    /// The entry is counted under its kind and the batch moves on.
    pub fn step(&mut self, dst_exists: bool, link: Result<(), ErrorKind>) -> (r: InstallStatus)
        requires
            old(self).wf(),
            old(self).next < old(self).tasks@.len(),
        ensures
            final(self).wf(),
            final(self).next == old(self).next + 1,
            final(self).tasks == old(self).tasks,
            final(self).n_files == old(self).n_files,
            r == spec_status(spec_decide(dst_exists), link),
            dst_exists ==> r == InstallStatus::Skipped(SkipReason::AlreadyInstalled),
            InstallResult::recorded(old(self).result, final(self).result, old(self).tasks@[old(self).next as int].kind, r),
    {
        let n = self.next;
        let len = self.tasks.len();
        assert(n < len);
        let kind = self.tasks[n].kind;
        let status = status_of(decide_install(dst_exists), link);
        assert(self.result.total() == n);
        assert(usize::MAX <= u64::MAX);
        self.result.record(kind, status.clone_status());
        self.next = n + 1;
        status
    }
}

/// A finished batch in which nothing was installed and nothing failed
/// counted every tracked file and every tracked directory as skipped; by
/// `step`, that is the batch in which every target already existed.
pub proof fn lemma_batch_all_skipped(b: InstallBatch)
    requires
        b.wf(),
        b.next == b.tasks@.len(),
        b.result.files_installed == 0 && b.result.files_errored == 0,
        b.result.dirs_installed == 0 && b.result.dirs_errored == 0,
    ensures
        b.result.files_skipped == b.n_files,
        b.result.dirs_skipped == b.tasks@.len() - b.n_files,
{
}

} // verus!
