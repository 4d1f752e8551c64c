//! A model of the file system as a map from absolute paths to entries, the
//! effect of each step that install and pick ask the caller to perform, and
//! the laws that follow.
use vstd::prelude::*;
use crate::install::{EntryKind, InstallAction, spec_decide, task_of};
use crate::path::{Comps, strip_base};

verus! {

/// An entry of the modelled file system.
pub enum Node {
    File(Seq<u8>),
    Dir,
    Link(Comps),
}

/// The modelled file system: what stands at each absolute path.
pub type Fs = Map<Comps, Node>;

/// One file-system step, over paths.
pub enum Step {
    /// Create each missing directory above the path.
    MakeParents(Comps),
    /// Copy a file, or a directory's whole subtree, from the first path to
    /// the second.
    Copy(EntryKind, Comps, Comps),
    /// Remove a file, or a directory's whole subtree.
    Remove(EntryKind, Comps),
    /// Create at the first path a link to the second.
    Link(Comps, Comps),
}

pub open spec fn is_prefix(p: Comps, q: Comps) -> bool {
    p.len() <= q.len() && q.take(p.len() as int) == p
}

/// The file system after one step succeeded.
pub open spec fn apply_step(fs: Fs, st: Step) -> Fs {
    match st {
        Step::MakeParents(p) => Map::new(
            |k: Comps| fs.contains_key(k) || (k.len() < p.len() && is_prefix(k, p)),
            |k: Comps|
                if fs.contains_key(k) {
                    fs[k]
                } else {
                    Node::Dir
                },
        ),
        Step::Copy(EntryKind::File, from, to) => fs.insert(to, fs[from]),
        Step::Copy(EntryKind::Dir, from, to) => Map::new(
            |k: Comps| fs.contains_key(k) || (is_prefix(to, k) && fs.contains_key(from + k.skip(to.len() as int))),
            |k: Comps|
                if is_prefix(to, k) && fs.contains_key(from + k.skip(to.len() as int)) {
                    fs[from + k.skip(to.len() as int)]
                } else {
                    fs[k]
                },
        ),
        Step::Remove(EntryKind::File, at) => fs.remove(at),
        Step::Remove(EntryKind::Dir, at) => fs.restrict(fs.dom().filter(|k: Comps| !is_prefix(at, k))),
        Step::Link(at, target) => fs.insert(at, Node::Link(target)),
    }
}

/// The file system after every step of `steps` succeeded, in order.
pub open spec fn apply_steps(fs: Fs, steps: Seq<Step>) -> Fs
    decreases steps.len(),
{
    if steps.len() == 0 {
        fs
    } else {
        apply_steps(apply_step(fs, steps[0]), steps.drop_first())
    }
}

/// The steps of picking the entry at `in_base` into `in_repo`, in their
/// mandatory order: parents, copy, remove, link.
pub open spec fn pick_steps(kind: EntryKind, in_base: Comps, in_repo: Comps) -> Seq<Step> {
    seq![
        Step::MakeParents(in_repo),
        Step::Copy(kind, in_base, in_repo),
        Step::Remove(kind, in_base),
        Step::Link(in_base, in_repo),
    ]
}

/// Install of one (source, target) pair; `ok` tells whether creating the
/// parents and the link succeeded. A failed entry is modelled as leaving the
/// file system as it was (directories that were created before the failure
/// are not modelled).
pub open spec fn install_one(fs: Fs, t: (Comps, Comps), ok: bool) -> Fs {
    if spec_decide(fs.contains_key(t.1)) == InstallAction::Skip {
        fs
    } else if ok {
        apply_step(apply_step(fs, Step::MakeParents(t.1)), Step::Link(t.1, t.0))
    } else {
        fs
    }
}

/// Install of a batch of pairs in order, the i-th link creation succeeding
/// as `oks[i]` says.
pub open spec fn install_run(fs: Fs, ts: Seq<(Comps, Comps)>, oks: Seq<bool>) -> Fs
    decreases ts.len(),
{
    if ts.len() == 0 {
        fs
    } else {
        install_run(install_one(fs, ts[0], oks[0]), ts.drop_first(), oks.drop_first())
    }
}

/// The decision taken for each pair of a batch, in order.
pub open spec fn install_decisions(fs: Fs, ts: Seq<(Comps, Comps)>, oks: Seq<bool>) -> Seq<InstallAction>
    decreases ts.len(),
{
    if ts.len() == 0 {
        Seq::empty()
    } else {
        seq![spec_decide(fs.contains_key(ts[0].1))] + install_decisions(
            install_one(fs, ts[0], oks[0]),
            ts.drop_first(),
            oks.drop_first(),
        )
    }
}

/// The content reached through the link at `p`, where it links to a file.
pub open spec fn linked_content(fs: Fs, p: Comps) -> Option<Seq<u8>> {
    if fs.contains_key(p) {
        match fs[p] {
            Node::Link(t) => if fs.contains_key(t) {
                match fs[t] {
                    Node::File(c) => Some(c),
                    _ => None,
                }
            } else {
                None
            },
            _ => None,
        }
    } else {
        None
    }
}

/// Never-clobber: whatever the repository holds and however each link
/// creation goes, install leaves every path that already existed as it was.
pub proof fn lemma_install_never_clobbers(fs: Fs, ts: Seq<(Comps, Comps)>, oks: Seq<bool>, p: Comps)
    requires
        fs.contains_key(p),
    ensures
        install_run(fs, ts, oks).contains_key(p),
        install_run(fs, ts, oks)[p] == fs[p],
    decreases ts.len(),
{
    if ts.len() > 0 {
        let fs1 = install_one(fs, ts[0], oks[0]);
        assert(fs1.contains_key(p) && fs1[p] == fs[p]);
        lemma_install_never_clobbers(fs1, ts.drop_first(), oks.drop_first(), p);
    }
}

/// After a batch in which every link creation succeeded, every target exists.
proof fn lemma_install_places_all(fs: Fs, ts: Seq<(Comps, Comps)>, oks: Seq<bool>)
    requires
        oks.len() >= ts.len(),
        forall|i: int| 0 <= i < ts.len() ==> #[trigger] oks[i],
    ensures
        forall|i: int| 0 <= i < ts.len() ==> install_run(fs, ts, oks).contains_key(#[trigger] ts[i].1),
    decreases ts.len(),
{
    if ts.len() > 0 {
        let fs1 = install_one(fs, ts[0], oks[0]);
        assert(oks[0]);
        assert(fs1.contains_key(ts[0].1));
        assert forall|i: int| 0 <= i < ts.drop_first().len() implies #[trigger] oks.drop_first()[i] by {
            assert(oks[i + 1]);
        }
        lemma_install_places_all(fs1, ts.drop_first(), oks.drop_first());
        lemma_install_never_clobbers(fs1, ts.drop_first(), oks.drop_first(), ts[0].1);
        assert forall|i: int| 0 <= i < ts.len() implies install_run(fs, ts, oks).contains_key(#[trigger] ts[i].1) by {
            if i > 0 {
                assert(ts[i] == ts.drop_first()[i - 1]);
            }
        }
    }
}

/// A batch whose targets all exist changes nothing and skips every entry.
proof fn lemma_install_all_present(fs: Fs, ts: Seq<(Comps, Comps)>, oks: Seq<bool>)
    requires
        forall|i: int| 0 <= i < ts.len() ==> fs.contains_key(#[trigger] ts[i].1),
    ensures
        install_run(fs, ts, oks) == fs,
        install_decisions(fs, ts, oks).len() == ts.len(),
        forall|i: int| 0 <= i < ts.len() ==> #[trigger] install_decisions(fs, ts, oks)[i] == InstallAction::Skip,
    decreases ts.len(),
{
    if ts.len() > 0 {
        assert(fs.contains_key(ts[0].1));
        assert forall|i: int| 0 <= i < ts.drop_first().len() implies fs.contains_key(#[trigger] ts.drop_first()[i].1) by {
            assert(ts.drop_first()[i] == ts[i + 1]);
        }
        lemma_install_all_present(fs, ts.drop_first(), oks.drop_first());
        let d = install_decisions(fs, ts, oks);
        let rest = install_decisions(fs, ts.drop_first(), oks.drop_first());
        assert forall|i: int| 0 <= i < ts.len() implies #[trigger] d[i] == InstallAction::Skip by {
            if i > 0 {
                assert(d[i] == rest[i - 1]);
            }
        }
    }
}

/// Idempotence: after an install in which every link creation succeeded, a
/// second install of the same batch leaves the file system as it is and
/// skips every entry, however its own link creations would go.
pub proof fn lemma_install_idempotent(fs: Fs, ts: Seq<(Comps, Comps)>, first: Seq<bool>, second: Seq<bool>)
    requires
        first.len() >= ts.len(),
        forall|i: int| 0 <= i < ts.len() ==> #[trigger] first[i],
    ensures
        install_run(install_run(fs, ts, first), ts, second) == install_run(fs, ts, first),
        install_decisions(install_run(fs, ts, first), ts, second).len() == ts.len(),
        forall|i: int| 0 <= i < ts.len() ==>
            #[trigger] install_decisions(install_run(fs, ts, first), ts, second)[i] == InstallAction::Skip,
{
    lemma_install_places_all(fs, ts, first);
    lemma_install_all_present(install_run(fs, ts, first), ts, second);
}

/// Re-basing: the part of `base + rel` below `base` is `rel`.
pub proof fn lemma_rebase(base: Comps, rel: Comps)
    ensures
        strip_base(base + rel, base) == Some(rel),
{
    assert((base + rel).take(base.len() as int) =~= base);
    assert((base + rel).skip(base.len() as int) =~= rel);
}

/// Pick round trip: picking the file at `install_base + rel` into the
/// repository, then installing `rel` into a fresh base, leaves at the fresh
/// target a link whose content is the picked file's, and a link at the
/// picked place to the same repository copy.
pub proof fn lemma_pick_round_trip(
    fs: Fs,
    repository: Comps,
    install_base: Comps,
    fresh_base: Comps,
    rel: Comps,
    content: Seq<u8>,
)
    requires
        fs.contains_key(install_base + rel),
        fs[install_base + rel] == Node::File(content),
        !fs.contains_key(repository + rel),
        !fs.contains_key(fresh_base + rel),
        repository + rel != install_base + rel,
        fresh_base + rel != install_base + rel,
        fresh_base + rel != repository + rel,
        !(is_prefix(fresh_base + rel, repository + rel)),
    ensures
        ({
            let picked = apply_steps(fs, pick_steps(EntryKind::File, install_base + rel, repository + rel));
            let t = task_of(repository, fresh_base, rel);
            let installed = install_run(picked, seq![t], seq![true]);
            &&& picked.contains_key(install_base + rel)
            &&& picked[install_base + rel] == Node::Link(repository + rel)
            &&& linked_content(picked, install_base + rel) == Some(content)
            &&& installed.contains_key(fresh_base + rel)
            &&& installed[fresh_base + rel] == Node::Link(repository + rel)
            &&& linked_content(installed, fresh_base + rel) == Some(content)
            &&& linked_content(installed, install_base + rel) == Some(content)
        }),
{
    let orig = install_base + rel;
    let src = repository + rel;
    let dst = fresh_base + rel;
    let steps = pick_steps(EntryKind::File, orig, src);
    let f1 = apply_step(fs, Step::MakeParents(src));
    assert(f1.contains_key(orig) && f1[orig] == fs[orig]);
    assert(!f1.contains_key(src));
    assert(!f1.contains_key(dst));
    let f2 = apply_step(f1, Step::Copy(EntryKind::File, orig, src));
    let f3 = apply_step(f2, Step::Remove(EntryKind::File, orig));
    let f4 = apply_step(f3, Step::Link(orig, src));
    assert(steps.drop_first().drop_first().drop_first().drop_first() =~= Seq::<Step>::empty());
    assert(apply_steps(fs, steps) == f4) by {
        assert(steps[0] == Step::MakeParents(src));
        assert(steps.drop_first()[0] == Step::Copy(EntryKind::File, orig, src));
        assert(steps.drop_first().drop_first()[0] == Step::Remove(EntryKind::File, orig));
        assert(steps.drop_first().drop_first().drop_first()[0] == Step::Link(orig, src));
        let s1 = steps.drop_first();
        let s2 = s1.drop_first();
        let s3 = s2.drop_first();
        let s4 = s3.drop_first();
        assert(apply_steps(f4, s4) == f4);
        assert(apply_steps(f3, s3) == apply_steps(f4, s4));
        assert(apply_steps(f2, s2) == apply_steps(f3, s3));
        assert(apply_steps(f1, s1) == apply_steps(f2, s2));
        assert(apply_steps(fs, steps) == apply_steps(f1, s1));
    }
    assert(f4[src] == Node::File(content));
    assert(!f4.contains_key(dst));
    let t = task_of(repository, fresh_base, rel);
    let g1 = apply_step(f4, Step::MakeParents(dst));
    let g2 = apply_step(g1, Step::Link(dst, src));
    assert(install_one(f4, t, true) == g2);
    assert(seq![t].drop_first() =~= Seq::<(Comps, Comps)>::empty());
    assert(install_run(f4, seq![t], seq![true]) == g2) by {
        assert(seq![true].drop_first() =~= Seq::<bool>::empty());
        assert(install_run(g2, seq![t].drop_first(), seq![true].drop_first()) == g2);
    }
    assert(g1.contains_key(src) && g1[src] == f4[src]);
    assert(g1.contains_key(orig) && g1[orig] == f4[orig]);
}

/// Neither path lies at or below the other.
pub open spec fn disjoint(a: Comps, b: Comps) -> bool {
    !is_prefix(a, b) && !is_prefix(b, a)
}

/// Every path at or below `p` stands the same in both file systems.
pub open spec fn same_tree(f1: Fs, f2: Fs, p: Comps) -> bool {
    forall|s: Comps|
        (#[trigger] f1.contains_key(p + s)) == f2.contains_key(p + s) && (f1.contains_key(p + s) ==> f1[p
            + s] == f2[p + s])
}

/// Everything at or below `from` in `before` stands at the same place below
/// `to` in `after`.
pub open spec fn copied_tree(before: Fs, after: Fs, from: Comps, to: Comps) -> bool {
    forall|s: Comps|
        #[trigger] before.contains_key(from + s) ==> after.contains_key(to + s) && after[to + s] == before[from
            + s]
}

/// Nothing stands at or below `p`.
pub open spec fn tree_absent(fs: Fs, p: Comps) -> bool {
    forall|s: Comps| !(#[trigger] fs.contains_key(p + s))
}

/// The file system after a pick whose operation `i` failed: the operations
/// before it took effect, and the failed one is taken to have left the
/// file system as it was.
pub open spec fn pick_failed_at(fs: Fs, kind: EntryKind, in_base: Comps, in_repo: Comps, i: int) -> Fs {
    apply_steps(fs, pick_steps(kind, in_base, in_repo).take(i))
}

proof fn lemma_prefix_concat(p: Comps, s: Comps)
    ensures
        is_prefix(p, p + s),
        (p + s).skip(p.len() as int) == s,
{
    assert((p + s).take(p.len() as int) =~= p);
    assert((p + s).skip(p.len() as int) =~= s);
}

proof fn lemma_prefix_trans(a: Comps, b: Comps, c: Comps)
    requires
        is_prefix(a, b),
        is_prefix(b, c),
    ensures
        is_prefix(a, c),
{
    assert(c.take(a.len() as int) =~= c.take(b.len() as int).take(a.len() as int));
}

/// A path below one of two disjoint paths is not below the other.
proof fn lemma_disjoint_below(a: Comps, b: Comps, s: Comps)
    requires
        disjoint(a, b),
    ensures
        !is_prefix(a, b + s),
{
    if is_prefix(a, b + s) {
        if a.len() <= b.len() {
            assert(b.take(a.len() as int) =~= (b + s).take(a.len() as int));
        } else {
            assert((b + s).take(a.len() as int) == a);
            assert(a.take(b.len() as int) =~= (b + s).take(a.len() as int).take(b.len() as int));
            assert((b + s).take(a.len() as int).take(b.len() as int) =~= (b + s).take(b.len() as int));
            assert((b + s).take(b.len() as int) =~= b);
            assert(a.take(b.len() as int) == b);
        }
    }
}

/// The file system after the first `i` operations of a pick, unfolded.
proof fn lemma_pick_prefix_steps(fs: Fs, kind: EntryKind, in_base: Comps, in_repo: Comps)
    ensures
        ({
            let f1 = apply_step(fs, Step::MakeParents(in_repo));
            let f2 = apply_step(f1, Step::Copy(kind, in_base, in_repo));
            let f3 = apply_step(f2, Step::Remove(kind, in_base));
            &&& pick_failed_at(fs, kind, in_base, in_repo, 0) == fs
            &&& pick_failed_at(fs, kind, in_base, in_repo, 1) == f1
            &&& pick_failed_at(fs, kind, in_base, in_repo, 2) == f2
            &&& pick_failed_at(fs, kind, in_base, in_repo, 3) == f3
        }),
{
    let steps = pick_steps(kind, in_base, in_repo);
    let f1 = apply_step(fs, Step::MakeParents(in_repo));
    let f2 = apply_step(f1, Step::Copy(kind, in_base, in_repo));
    let f3 = apply_step(f2, Step::Remove(kind, in_base));
    assert(steps.take(0) =~= Seq::<Step>::empty());
    let t1 = steps.take(1);
    let t2 = steps.take(2);
    let t3 = steps.take(3);
    assert(t1.drop_first() =~= Seq::<Step>::empty());
    assert(t2.drop_first() =~= seq![Step::Copy(kind, in_base, in_repo)]);
    assert(t2.drop_first().drop_first() =~= Seq::<Step>::empty());
    assert(t3.drop_first() =~= seq![Step::Copy(kind, in_base, in_repo), Step::Remove(kind, in_base)]);
    assert(t3.drop_first().drop_first() =~= seq![Step::Remove(kind, in_base)]);
    assert(t3.drop_first().drop_first().drop_first() =~= Seq::<Step>::empty());
    assert(apply_steps(f1, t1.drop_first()) == f1);
    assert(apply_steps(f2, t2.drop_first().drop_first()) == f2);
    assert(apply_steps(f1, t2.drop_first()) == f2);
    assert(apply_steps(f3, t3.drop_first().drop_first().drop_first()) == f3);
    assert(apply_steps(f2, t3.drop_first().drop_first()) == f3);
    assert(apply_steps(f1, t3.drop_first()) == f3);
}

/// The effects of the parents and copy operations, for disjoint places.
proof fn lemma_pick_copy_effects(fs: Fs, kind: EntryKind, in_base: Comps, in_repo: Comps)
    requires
        disjoint(in_base, in_repo),
    ensures
        ({
            let f1 = apply_step(fs, Step::MakeParents(in_repo));
            let f2 = apply_step(f1, Step::Copy(kind, in_base, in_repo));
            &&& same_tree(fs, f1, in_base)
            &&& same_tree(fs, f2, in_base)
            &&& kind == EntryKind::File && fs.contains_key(in_base) ==> f2.contains_key(in_repo)
                && f2[in_repo] == fs[in_base]
            &&& kind == EntryKind::Dir ==> copied_tree(fs, f2, in_base, in_repo)
        }),
{
    let f1 = apply_step(fs, Step::MakeParents(in_repo));
    let f2 = apply_step(f1, Step::Copy(kind, in_base, in_repo));
    assert(disjoint(in_repo, in_base));
    assert forall|s: Comps| (#[trigger] fs.contains_key(in_base + s)) == f1.contains_key(in_base + s) && (
    fs.contains_key(in_base + s) ==> fs[in_base + s] == f1[in_base + s]) by {
        let k = in_base + s;
        lemma_prefix_concat(in_base, s);
        if !fs.contains_key(k) && k.len() < in_repo.len() && is_prefix(k, in_repo) {
            lemma_prefix_trans(in_base, k, in_repo);
        }
    }
    assert forall|s: Comps| (#[trigger] fs.contains_key(in_base + s)) == f2.contains_key(in_base + s) && (
    fs.contains_key(in_base + s) ==> fs[in_base + s] == f2[in_base + s]) by {
        let k = in_base + s;
        lemma_prefix_concat(in_base, s);
        lemma_disjoint_below(in_repo, in_base, s);
        assert(f1.contains_key(k) == fs.contains_key(k));
        if kind == EntryKind::File {
            assert(k != in_repo);
        }
    }
    if kind == EntryKind::File && fs.contains_key(in_base) {
        assert(in_base + Seq::<Seq<char>>::empty() =~= in_base);
        assert(f1.contains_key(in_base + Seq::<Seq<char>>::empty()));
    }
    if kind == EntryKind::Dir {
        assert forall|s: Comps| #[trigger] fs.contains_key(in_base + s) implies f2.contains_key(in_repo + s)
            && f2[in_repo + s] == fs[in_base + s] by {
            lemma_prefix_concat(in_repo, s);
            assert(f1.contains_key(in_base + s));
        }
    }
}

/// A pick that failed at making the parents, at the copy, or at the remove
/// (operations 0 to 2) left the picked entry and everything below it as
/// they were: nothing was removed and no link was made there.
pub proof fn lemma_pick_fail_keeps_entry(fs: Fs, kind: EntryKind, in_base: Comps, in_repo: Comps, i: int)
    requires
        0 <= i <= 2,
        disjoint(in_base, in_repo),
    ensures
        same_tree(fs, pick_failed_at(fs, kind, in_base, in_repo, i), in_base),
{
    lemma_pick_prefix_steps(fs, kind, in_base, in_repo);
    lemma_pick_copy_effects(fs, kind, in_base, in_repo);
    if i == 0 {
        assert forall|s: Comps| (#[trigger] fs.contains_key(in_base + s)) == pick_failed_at(fs, kind, in_base, in_repo, i).contains_key(in_base + s) && (
        fs.contains_key(in_base + s) ==> fs[in_base + s] == pick_failed_at(fs, kind, in_base, in_repo, i)[in_base + s]) by {}
    }
}

/// A pick whose remove failed (operation 2) left a full copy in the
/// repository beside the untouched entry.
pub proof fn lemma_pick_fail_at_remove(fs: Fs, kind: EntryKind, in_base: Comps, in_repo: Comps)
    requires
        disjoint(in_base, in_repo),
        fs.contains_key(in_base),
    ensures
        same_tree(fs, pick_failed_at(fs, kind, in_base, in_repo, 2), in_base),
        kind == EntryKind::File ==> pick_failed_at(fs, kind, in_base, in_repo, 2).contains_key(in_repo)
            && pick_failed_at(fs, kind, in_base, in_repo, 2)[in_repo] == fs[in_base],
        kind == EntryKind::Dir ==> copied_tree(fs, pick_failed_at(fs, kind, in_base, in_repo, 2), in_base, in_repo),
{
    lemma_pick_prefix_steps(fs, kind, in_base, in_repo);
    lemma_pick_copy_effects(fs, kind, in_base, in_repo);
}

/// A pick whose link failed (operation 3) left the repository copy as the
/// only copy: nothing stands at the picked place any more (for a directory,
/// nothing below it either).
pub proof fn lemma_pick_fail_at_link(fs: Fs, kind: EntryKind, in_base: Comps, in_repo: Comps)
    requires
        disjoint(in_base, in_repo),
        fs.contains_key(in_base),
    ensures
        !pick_failed_at(fs, kind, in_base, in_repo, 3).contains_key(in_base),
        kind == EntryKind::Dir ==> tree_absent(pick_failed_at(fs, kind, in_base, in_repo, 3), in_base),
        kind == EntryKind::File ==> pick_failed_at(fs, kind, in_base, in_repo, 3).contains_key(in_repo)
            && pick_failed_at(fs, kind, in_base, in_repo, 3)[in_repo] == fs[in_base],
        kind == EntryKind::Dir ==> copied_tree(fs, pick_failed_at(fs, kind, in_base, in_repo, 3), in_base, in_repo),
{
    lemma_pick_prefix_steps(fs, kind, in_base, in_repo);
    lemma_pick_copy_effects(fs, kind, in_base, in_repo);
    let f1 = apply_step(fs, Step::MakeParents(in_repo));
    let f2 = apply_step(f1, Step::Copy(kind, in_base, in_repo));
    let f3 = apply_step(f2, Step::Remove(kind, in_base));
    lemma_prefix_concat(in_base, Seq::empty());
    assert(in_base + Seq::<Seq<char>>::empty() =~= in_base);
    if kind == EntryKind::File {
        assert(in_repo != in_base);
    } else {
        assert forall|s: Comps| !(#[trigger] f3.contains_key(in_base + s)) by {
            lemma_prefix_concat(in_base, s);
        }
        assert forall|s: Comps| #[trigger] fs.contains_key(in_base + s) implies f3.contains_key(in_repo + s)
            && f3[in_repo + s] == fs[in_base + s] by {
            lemma_disjoint_below(in_base, in_repo, s);
            assert(f2.contains_key(in_repo + s));
        }
    }
}

} // verus!
