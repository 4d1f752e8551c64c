//! The manifest: the relative paths of files and directories that the
//! repository tracks, each set kept sorted and free of duplicates.
use vstd::prelude::*;
use crate::error::PathError;
use crate::path::{Comps, RelPath, comps_ok, lemma_rel_text_round_trip, rel_text, spec_rel_new};
use std::cmp::Ordering;

verus! {

/// Lexicographic order of component texts, character by character.
pub open spec fn chars_lt(a: Seq<char>, b: Seq<char>) -> bool
    decreases a.len(),
{
    if a.len() == 0 {
        b.len() > 0
    } else if b.len() == 0 {
        false
    } else if a[0] != b[0] {
        a[0] < b[0]
    } else {
        chars_lt(a.drop_first(), b.drop_first())
    }
}

/// Lexicographic order of paths, component by component (the order of
/// `std::path::Path`).
pub open spec fn comps_lt(a: Comps, b: Comps) -> bool
    decreases a.len(),
{
    if a.len() == 0 {
        b.len() > 0
    } else if b.len() == 0 {
        false
    } else if a[0] != b[0] {
        chars_lt(a[0], b[0])
    } else {
        comps_lt(a.drop_first(), b.drop_first())
    }
}

/// Each entry comes strictly before every later one.
pub open spec fn strictly_sorted(s: Seq<Comps>) -> bool {
    forall|i: int, j: int| 0 <= i < j < s.len() ==> #[trigger] comps_lt(s[i], s[j])
}

pub open spec fn no_duplicates(s: Seq<Comps>) -> bool {
    forall|i: int, j: int| 0 <= i < j < s.len() ==> s[i] != s[j]
}

/// The paths held by a vector of relative paths.
pub open spec fn views(v: Seq<RelPath>) -> Seq<Comps> {
    v.map_values(|p: RelPath| p@)
}

proof fn lemma_chars_irreflexive(a: Seq<char>)
    ensures
        !chars_lt(a, a),
    decreases a.len(),
{
    if a.len() > 0 {
        lemma_chars_irreflexive(a.drop_first());
    }
}

proof fn lemma_chars_total(a: Seq<char>, b: Seq<char>)
    ensures
        a != b ==> chars_lt(a, b) || chars_lt(b, a),
    decreases a.len(),
{
    if a.len() > 0 && b.len() > 0 && a[0] == b[0] {
        lemma_chars_total(a.drop_first(), b.drop_first());
        if a.drop_first() == b.drop_first() {
            assert(a =~= seq![a[0]] + a.drop_first());
            assert(b =~= seq![b[0]] + b.drop_first());
        }
    } else if a.len() > 0 && b.len() > 0 {
    } else if a.len() == 0 && b.len() == 0 {
        assert(a =~= b);
    }
}

proof fn lemma_chars_trans(a: Seq<char>, b: Seq<char>, c: Seq<char>)
    requires
        chars_lt(a, b),
        chars_lt(b, c),
    ensures
        chars_lt(a, c),
    decreases a.len(),
{
    if a.len() > 0 && a[0] == b[0] && b[0] == c[0] {
        lemma_chars_trans(a.drop_first(), b.drop_first(), c.drop_first());
    }
}

proof fn lemma_comps_irreflexive(a: Comps)
    ensures
        !comps_lt(a, a),
    decreases a.len(),
{
    if a.len() > 0 {
        lemma_comps_irreflexive(a.drop_first());
    }
}

proof fn lemma_comps_total(a: Comps, b: Comps)
    ensures
        a != b ==> comps_lt(a, b) || comps_lt(b, a),
    decreases a.len(),
{
    if a.len() > 0 && b.len() > 0 && a[0] == b[0] {
        lemma_comps_total(a.drop_first(), b.drop_first());
        if a.drop_first() == b.drop_first() {
            assert(a =~= seq![a[0]] + a.drop_first());
            assert(b =~= seq![b[0]] + b.drop_first());
        }
    } else if a.len() > 0 && b.len() > 0 {
        lemma_chars_total(a[0], b[0]);
    } else if a.len() == 0 && b.len() == 0 {
        assert(a =~= b);
    }
}

proof fn lemma_comps_trans(a: Comps, b: Comps, c: Comps)
    requires
        comps_lt(a, b),
        comps_lt(b, c),
    ensures
        comps_lt(a, c),
    decreases a.len(),
{
    if a.len() > 0 && b.len() > 0 && c.len() > 0 {
        if a[0] == b[0] && b[0] == c[0] {
            lemma_comps_trans(a.drop_first(), b.drop_first(), c.drop_first());
        } else if a[0] != b[0] && b[0] != c[0] {
            lemma_chars_trans(a[0], b[0], c[0]);
            if a[0] == c[0] {
                lemma_chars_trans(b[0], a[0], b[0]);
                lemma_chars_irreflexive(b[0]);
            }
        }
    }
}

/// A strictly sorted sequence holds no duplicates.
pub proof fn lemma_sorted_no_duplicates(s: Seq<Comps>)
    requires
        strictly_sorted(s),
    ensures
        no_duplicates(s),
{
    assert forall|i: int, j: int| 0 <= i < j < s.len() implies s[i] != s[j] by {
        assert(comps_lt(s[i], s[j]));
        lemma_comps_irreflexive(s[i]);
    }
}

/// Compares two component texts in `chars_lt` order.
fn cmp_chars(a: &String, b: &String) -> (r: Ordering)
    ensures
        (r == Ordering::Less) == chars_lt(a@, b@),
        (r == Ordering::Equal) == (a@ == b@),
        (r == Ordering::Greater) == chars_lt(b@, a@),
{
    let sa = a.as_str();
    let sb = b.as_str();
    let na = sa.unicode_len();
    let nb = sb.unicode_len();
    let mut k: usize = 0;
    proof {
        lemma_chars_irreflexive(a@);
        lemma_chars_total(a@, b@);
        assert(a@.skip(0) =~= a@);
        assert(b@.skip(0) =~= b@);
    }
    while k < na && k < nb
        invariant
            na == a@.len(),
            nb == b@.len(),
            sa@ == a@,
            sb@ == b@,
            k <= na,
            k <= nb,
            a@.take(k as int) =~= b@.take(k as int),
            chars_lt(a@, b@) == chars_lt(a@.skip(k as int), b@.skip(k as int)),
            chars_lt(b@, a@) == chars_lt(b@.skip(k as int), a@.skip(k as int)),
        decreases na - k,
    {
        let ca = sa.get_char(k);
        let cb = sb.get_char(k);
        assert(a@.skip(k as int)[0] == ca);
        assert(b@.skip(k as int)[0] == cb);
        if ca != cb {
            if ca < cb {
                return Ordering::Less;
            } else {
                assert(a@[k as int] != b@[k as int]);
                return Ordering::Greater;
            }
        }
        assert(a@.skip(k as int).drop_first() =~= a@.skip(k + 1));
        assert(b@.skip(k as int).drop_first() =~= b@.skip(k + 1));
        assert(a@.take(k + 1) =~= a@.take(k as int).push(ca));
        assert(b@.take(k + 1) =~= b@.take(k as int).push(cb));
        k = k + 1;
    }
    if na == nb {
        assert(a@ =~= a@.take(k as int));
        assert(b@ =~= b@.take(k as int));
        Ordering::Equal
    } else if k == na {
        assert(a@ != b@);
        Ordering::Less
    } else {
        assert(a@.len() != b@.len());
        Ordering::Greater
    }
}

/// Compares two relative paths in `comps_lt` order.
pub fn cmp_paths(a: &RelPath, b: &RelPath) -> (r: Ordering)
    ensures
        (r == Ordering::Less) == comps_lt(a@, b@),
        (r == Ordering::Equal) == (a@ == b@),
        (r == Ordering::Greater) == comps_lt(b@, a@),
{
    let na = a.comps.len();
    let nb = b.comps.len();
    let mut k: usize = 0;
    proof {
        lemma_comps_irreflexive(a@);
        lemma_comps_total(a@, b@);
        assert(a@.skip(0) =~= a@);
        assert(b@.skip(0) =~= b@);
    }
    while k < na && k < nb
        invariant
            na == a@.len(),
            nb == b@.len(),
            k <= na,
            k <= nb,
            a@.take(k as int) =~= b@.take(k as int),
            comps_lt(a@, b@) == comps_lt(a@.skip(k as int), b@.skip(k as int)),
            comps_lt(b@, a@) == comps_lt(b@.skip(k as int), a@.skip(k as int)),
        decreases na - k,
    {
        let o = cmp_chars(&a.comps[k], &b.comps[k]);
        assert(a@.skip(k as int)[0] == a.comps@[k as int]@);
        assert(b@.skip(k as int)[0] == b.comps@[k as int]@);
        match o {
            Ordering::Less => {
                return Ordering::Less;
            },
            Ordering::Greater => {
                return Ordering::Greater;
            },
            Ordering::Equal => {},
        }
        assert(a@.skip(k as int).drop_first() =~= a@.skip(k + 1));
        assert(b@.skip(k as int).drop_first() =~= b@.skip(k + 1));
        assert(a@.take(k + 1) =~= a@.take(k as int).push(a@[k as int]));
        assert(b@.take(k + 1) =~= b@.take(k as int).push(b@[k as int]));
        k = k + 1;
    }
    if na == nb {
        assert(a@ =~= a@.take(k as int));
        assert(b@ =~= b@.take(k as int));
        Ordering::Equal
    } else if k == na {
        assert(a@ != b@);
        Ordering::Less
    } else {
        assert(a@.len() != b@.len());
        Ordering::Greater
    }
}

/// Each path of `s` is made of resolved components.
pub open spec fn all_ok(s: Seq<Comps>) -> bool {
    forall|i: int| 0 <= i < s.len() ==> comps_ok(#[trigger] s[i])
}

/// Where `v` is strictly sorted, inserts `x` in its place unless it is
/// already there.
fn insert_sorted(v: &mut Vec<RelPath>, x: RelPath)
    requires
        strictly_sorted(views(old(v)@)),
        all_ok(views(old(v)@)),
        comps_ok(x@),
    ensures
        strictly_sorted(views(final(v)@)),
        all_ok(views(final(v)@)),
        views(final(v)@).to_set() == views(old(v)@).to_set().insert(x@),
{
    let ghost s = views(v@);
    let mut i: usize = 0;
    let mut placed = false;
    while i < v.len() && !placed
        invariant
            i <= v.len(),
            views(v@) == s,
            strictly_sorted(s),
            all_ok(s),
            placed ==> i < v.len() && comps_lt(x@, s[i as int]),
            forall|j: int| 0 <= j < i ==> comps_lt(#[trigger] s[j], x@),
        decreases v.len() - i + (if placed { 0int } else { 1int }),
    {
        match cmp_paths(&v[i], &x) {
            Ordering::Less => {
                i = i + 1;
            },
            Ordering::Equal => {
                assert(s.to_set().insert(x@) =~= s.to_set()) by {
                    assert(s.contains(s[i as int]));
                }
                return;
            },
            Ordering::Greater => {
                placed = true;
            },
        }
    }
    let ghost xv = x@;
    v.insert(i, x);
    let ghost t = views(v@);
    assert(t =~= s.insert(i as int, xv));
    assert forall|a: int, b: int| 0 <= a < b < t.len() implies #[trigger] comps_lt(t[a], t[b]) by {
        if b < i {
        } else if b == i {
        } else if a < i {
            assert(comps_lt(s[a], xv));
            assert(comps_lt(xv, s[i as int]));
            if b - 1 > i {
                lemma_comps_trans(xv, s[i as int], s[b - 1]);
            }
            lemma_comps_trans(s[a], xv, s[b - 1]);
        } else if a == i {
            if b - 1 > i {
                lemma_comps_trans(xv, s[i as int], s[b - 1]);
            }
        } else {
            assert(comps_lt(s[a - 1], s[b - 1]));
        }
    }
    assert(all_ok(t)) by {
        assert forall|k: int| 0 <= k < t.len() implies comps_ok(#[trigger] t[k]) by {
            if k < i {
                assert(t[k] == s[k]);
            } else if k > i {
                assert(t[k] == s[k - 1]);
            }
        }
    }
    assert(t.to_set() =~= s.to_set().insert(xv)) by {
        assert forall|y: Comps| t.to_set().contains(y) implies s.to_set().insert(xv).contains(y) by {
            let k = choose|k: int| 0 <= k < t.len() && t[k] == y;
            if k < i {
                assert(s[k] == y);
            } else if k > i {
                assert(s[k - 1] == y);
            }
        }
        assert forall|y: Comps| s.to_set().insert(xv).contains(y) implies t.to_set().contains(y) by {
            if y == xv {
                assert(t[i as int] == y);
            } else {
                let k = choose|k: int| 0 <= k < s.len() && s[k] == y;
                if k < i {
                    assert(t[k] == y);
                } else {
                    assert(t[k + 1] == y);
                }
            }
        }
    }
}

/// Whether `v` holds the path `x`.
fn holds(v: &Vec<RelPath>, x: &RelPath) -> (r: bool)
    ensures
        r == views(v@).contains(x@),
{
    let mut i: usize = 0;
    while i < v.len()
        invariant
            i <= v.len(),
            forall|j: int| 0 <= j < i ==> views(v@)[j] != x@,
        decreases v.len() - i,
    {
        if let Ordering::Equal = cmp_paths(&v[i], x) {
            assert(views(v@)[i as int] == x@);
            return true;
        }
        i = i + 1;
    }
    false
}

/// The tracked relative paths: files and directories, each set strictly
/// sorted (so free of duplicates).
#[derive(Debug)]
pub struct RepoInfo {
    pub files: Vec<RelPath>,
    pub dirs: Vec<RelPath>,
}

impl RepoInfo {
    /// The manifest's invariant: each set sorted ascending with no
    /// duplicates, and every path made of resolved components.
    pub open spec fn wf(&self) -> bool {
        &&& strictly_sorted(views(self.files@))
        &&& strictly_sorted(views(self.dirs@))
        &&& all_ok(views(self.files@))
        &&& all_ok(views(self.dirs@))
    }

    pub open spec fn file_set(&self) -> Set<Comps> {
        views(self.files@).to_set()
    }

    pub open spec fn dir_set(&self) -> Set<Comps> {
        views(self.dirs@).to_set()
    }

    /// The empty manifest, used where none was persisted.
    pub fn new() -> (r: RepoInfo)
        ensures
            r.wf(),
            r.file_set() == Set::<Comps>::empty(),
            r.dir_set() == Set::<Comps>::empty(),
    {
        let r = RepoInfo { files: Vec::new(), dirs: Vec::new() };
        assert(views(r.files@).to_set() =~= Set::<Comps>::empty());
        assert(views(r.dirs@).to_set() =~= Set::<Comps>::empty());
        r
    }

    /// Tracks a file; the sets stay sorted and free of duplicates.
    pub fn add_file(&mut self, rel: RelPath)
        requires
            old(self).wf(),
            rel.wf(),
        ensures
            final(self).wf(),
            no_duplicates(views(final(self).files@)),
            final(self).file_set() == old(self).file_set().insert(rel@),
            final(self).dirs == old(self).dirs,
    {
        insert_sorted(&mut self.files, rel);
        proof {
            lemma_sorted_no_duplicates(views(self.files@));
        }
    }

    /// Tracks a directory; the sets stay sorted and free of duplicates.
    pub fn add_dir(&mut self, rel: RelPath)
        requires
            old(self).wf(),
            rel.wf(),
        ensures
            final(self).wf(),
            no_duplicates(views(final(self).dirs@)),
            final(self).dir_set() == old(self).dir_set().insert(rel@),
            final(self).files == old(self).files,
    {
        insert_sorted(&mut self.dirs, rel);
        proof {
            lemma_sorted_no_duplicates(views(self.dirs@));
        }
    }

    /// Whether `rel` is tracked as a file.
    pub fn has_file(&self, rel: &RelPath) -> (r: bool)
        ensures
            r == self.file_set().contains(rel@),
    {
        holds(&self.files, rel)
    }

    /// Whether `rel` is tracked as a directory.
    pub fn has_dir(&self, rel: &RelPath) -> (r: bool)
        ensures
            r == self.dir_set().contains(rel@),
    {
        holds(&self.dirs, rel)
    }
}

/// Every text of `v` reads as a relative path.
pub open spec fn all_relative(v: Seq<String>) -> bool {
    forall|i: int| 0 <= i < v.len() ==> (#[trigger] spec_rel_new(v[i]@)) is Ok
}

/// The paths that the texts of `v` read as.
pub open spec fn parsed_set(v: Seq<String>) -> Set<Comps> {
    Set::new(|c: Comps| exists|i: int| 0 <= i < v.len() && spec_rel_new(#[trigger] v[i]@) == Ok::<Comps, PathError>(c))
}

/// `e` is the error of the first text of `texts` that is not a relative
/// path.
pub open spec fn first_error(texts: Seq<String>, e: PathError) -> bool {
    exists|i: int|
        0 <= i < texts.len() && spec_rel_new(#[trigger] texts[i]@) == Err::<Comps, PathError>(e)
            && forall|j: int| 0 <= j < i ==> (#[trigger] spec_rel_new(texts[j]@)) is Ok
}

/// Adds the path of each text of `texts` to one set of `info`.
fn add_texts(info: &mut RepoInfo, texts: &Vec<String>, as_dir: bool) -> (r: Result<(), PathError>)
    requires
        old(info).wf(),
    ensures
        final(info).wf(),
        r is Ok <==> all_relative(texts@),
        r is Ok && as_dir ==> final(info).dir_set() == old(info).dir_set().union(parsed_set(texts@))
            && final(info).files == old(info).files,
        r is Ok && !as_dir ==> final(info).file_set() == old(info).file_set().union(parsed_set(texts@))
            && final(info).dirs == old(info).dirs,
        r matches Err(e) ==> first_error(texts@, e),
{
    let ghost start = *info;
    let mut i: usize = 0;
    while i < texts.len()
        invariant
            i <= texts.len(),
            info.wf(),
            forall|j: int| 0 <= j < i ==> (#[trigger] spec_rel_new(texts@[j]@)) is Ok,
            as_dir ==> info.dir_set() == start.dir_set().union(parsed_set(texts@.take(i as int)))
                && info.files == start.files,
            !as_dir ==> info.file_set() == start.file_set().union(parsed_set(texts@.take(i as int)))
                && info.dirs == start.dirs,
        decreases texts.len() - i,
    {
        let rel = match RelPath::new(texts[i].as_str()) {
            Ok(rel) => rel,
            Err(e) => {
                return Err(e);
            },
        };
        let ghost c = rel@;
        assert(parsed_set(texts@.take(i + 1)) =~= parsed_set(texts@.take(i as int)).insert(c)) by {
            assert(texts@.take(i + 1)[i as int] == texts@[i as int]);
            assert forall|y: Comps| parsed_set(texts@.take(i as int)).contains(y) implies parsed_set(texts@.take(i + 1)).contains(y) by {
                let k = choose|k: int| 0 <= k < i && spec_rel_new(#[trigger] texts@.take(i as int)[k]@) == Ok::<Comps, PathError>(y);
                assert(texts@.take(i + 1)[k] == texts@.take(i as int)[k]);
            }
            assert forall|y: Comps| parsed_set(texts@.take(i + 1)).contains(y) implies parsed_set(texts@.take(i as int)).insert(c).contains(y) by {
                let k = choose|k: int| 0 <= k < i + 1 && spec_rel_new(#[trigger] texts@.take(i + 1)[k]@) == Ok::<Comps, PathError>(y);
                if k < i {
                    assert(texts@.take(i as int)[k] == texts@.take(i + 1)[k]);
                }
            }
        }
        if as_dir {
            info.add_dir(rel);
        } else {
            info.add_file(rel);
        }
        i = i + 1;
    }
    assert(texts@.take(texts.len() as int) =~= texts@);
    Ok(())
}

/// The texts of a vector of relative paths.
fn texts_of(v: &Vec<RelPath>) -> (r: Vec<String>)
    ensures
        r@.map_values(|s: String| s@) == views(v@).map_values(|c: Comps| rel_text(c)),
{
    let mut r: Vec<String> = Vec::new();
    let mut i: usize = 0;
    while i < v.len()
        invariant
            i <= v.len(),
            r@.map_values(|s: String| s@) =~= views(v@.take(i as int)).map_values(|c: Comps| rel_text(c)),
        decreases v.len() - i,
    {
        let t = v[i].to_string();
        let ghost prev = r@;
        r.push(t);
        assert(r@.map_values(|s: String| s@) =~= prev.map_values(|s: String| s@).push(t@));
        assert(views(v@.take(i + 1)).map_values(|c: Comps| rel_text(c)) =~= views(v@.take(i as int)).map_values(|c: Comps| rel_text(c)).push(rel_text(v@[i as int]@)));
        i = i + 1;
    }
    assert(v@.take(v.len() as int) =~= v@);
    r
}

impl RepoInfo {
    /// Reads a persisted manifest from its path texts: every text must be a
    /// relative path (else the first one that is not gives the error); the
    /// result is sorted and deduplicated.
    pub fn from_texts(files: &Vec<String>, dirs: &Vec<String>) -> (r: Result<RepoInfo, PathError>)
        ensures
            r is Ok <==> all_relative(files@) && all_relative(dirs@),
            r matches Ok(info) ==> info.wf() && info.file_set() == parsed_set(files@)
                && info.dir_set() == parsed_set(dirs@),
            r matches Err(e) ==> if all_relative(files@) {
                first_error(dirs@, e)
            } else {
                first_error(files@, e)
            },
    {
        let mut info = RepoInfo::new();
        add_texts(&mut info, files, false)?;
        add_texts(&mut info, dirs, true)?;
        assert(info.file_set() =~= parsed_set(files@));
        assert(info.dir_set() =~= parsed_set(dirs@));
        Ok(info)
    }

    /// The texts of the tracked files, in order; they read back as the same
    /// paths (see `lemma_manifest_round_trip`).
    pub fn file_texts(&self) -> (r: Vec<String>)
        ensures
            r@.map_values(|s: String| s@) == views(self.files@).map_values(|c: Comps| rel_text(c)),
    {
        texts_of(&self.files)
    }

    /// The texts of the tracked directories, in order.
    pub fn dir_texts(&self) -> (r: Vec<String>)
        ensures
            r@.map_values(|s: String| s@) == views(self.dirs@).map_values(|c: Comps| rel_text(c)),
    {
        texts_of(&self.dirs)
    }
}

/// Saving and loading: each text that `file_texts` and `dir_texts` give
/// for a well-formed manifest reads back as the path it was made from, so
/// `from_texts` on them rebuilds the same sets.
pub proof fn lemma_manifest_round_trip(info: RepoInfo)
    requires
        info.wf(),
    ensures
        forall|i: int| 0 <= i < info.files@.len() ==>
            spec_rel_new(rel_text(#[trigger] info.files@[i]@)) == Ok::<Comps, PathError>(info.files@[i]@),
        forall|i: int| 0 <= i < info.dirs@.len() ==>
            spec_rel_new(rel_text(#[trigger] info.dirs@[i]@)) == Ok::<Comps, PathError>(info.dirs@[i]@),
{
    assert forall|i: int| 0 <= i < info.files@.len() implies spec_rel_new(rel_text(#[trigger] info.files@[i]@))
        == Ok::<Comps, PathError>(info.files@[i]@) by {
        assert(comps_ok(views(info.files@)[i]));
        lemma_rel_text_round_trip(info.files@[i]@);
    }
    assert forall|i: int| 0 <= i < info.dirs@.len() implies spec_rel_new(rel_text(#[trigger] info.dirs@[i]@))
        == Ok::<Comps, PathError>(info.dirs@[i]@) by {
        assert(comps_ok(views(info.dirs@)[i]));
        lemma_rel_text_round_trip(info.dirs@[i]@);
    }
}

} // verus!
