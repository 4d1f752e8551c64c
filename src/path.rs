//! Typed absolute and relative paths, and their lexical resolution against a
//! virtual working directory. Nothing here touches the file system.
use vstd::prelude::*;
use crate::error::PathError;

verus! {

/// A path as the sequence of its components.
pub type Comps = Seq<Seq<char>>;

/// The components of a vector of strings.
pub open spec fn comps_of(v: Seq<String>) -> Comps {
    v.map_values(|s: String| s@)
}

pub open spec fn is_dot(c: Seq<char>) -> bool {
    c =~= seq!['.']
}

pub open spec fn is_dot_dot(c: Seq<char>) -> bool {
    c =~= seq!['.', '.']
}

/// Applies one raw component to a stack of resolved components: an empty
/// component or `.` changes nothing, `..` drops the last one (and marks an
/// escape when there is none), anything else is appended.
pub open spec fn push_comp(stack: Comps, escaped: bool, c: Seq<char>) -> (Comps, bool) {
    if c.len() == 0 || is_dot(c) {
        (stack, escaped)
    } else if is_dot_dot(c) {
        if stack.len() > 0 {
            (stack.drop_last(), escaped)
        } else {
            (stack, true)
        }
    } else {
        (stack.push(c), escaped)
    }
}

/// Reads `s` character by character from the stack `init`: the resolved
/// stack, the component under way, and whether a `..` escaped the start.
pub open spec fn scan(init: Comps, s: Seq<char>) -> (Comps, Seq<char>, bool)
    decreases s.len(),
{
    if s.len() == 0 {
        (init, Seq::empty(), false)
    } else {
        let (st, cur, esc) = scan(init, s.drop_last());
        if s.last() == '/' {
            let (st2, esc2) = push_comp(st, esc, cur);
            (st2, Seq::empty(), esc2)
        } else {
            (st, cur.push(s.last()), esc)
        }
    }
}

/// Lexical resolution of the text `s` on top of `init`: the resolved
/// components, and whether a `..` went above `init`'s end.
pub open spec fn lexical(init: Comps, s: Seq<char>) -> (Comps, bool) {
    let (st, cur, esc) = scan(init, s);
    push_comp(st, esc, cur)
}

pub open spec fn starts_absolute(s: Seq<char>) -> bool {
    s.len() > 0 && s[0] == '/'
}

/// `to_absolute(path, virtual_cwd)`: an absolute text is normalised on its
/// own; a relative one is normalised on top of the working directory.
pub open spec fn spec_to_absolute(s: Seq<char>, cwd: Option<Comps>) -> Result<Comps, PathError> {
    if s.len() == 0 {
        Err(PathError::Absolutize)
    } else if starts_absolute(s) {
        Ok(lexical(Seq::empty(), s).0)
    } else {
        match cwd {
            None => Err(PathError::NoWorkingDirectory),
            Some(c) => Ok(lexical(c, s).0),
        }
    }
}

/// The part of `p` below `base`, if `base` is a prefix of `p`.
pub open spec fn strip_base(p: Comps, base: Comps) -> Option<Comps> {
    if base.len() <= p.len() && p.take(base.len() as int) =~= base {
        Some(p.skip(base.len() as int))
    } else {
        None
    }
}

/// `to_relative(path, virtual_cwd)`: resolve, then take the part below the
/// working directory.
pub open spec fn spec_to_relative(s: Seq<char>, cwd: Comps) -> Result<Comps, PathError> {
    match spec_to_absolute(s, Some(cwd)) {
        Err(e) => Err(e),
        Ok(a) => match strip_base(a, cwd) {
            Some(r) => Ok(r),
            None => Err(PathError::PathDiff),
        },
    }
}

/// A relative text on its own: normalised, and refused where it climbs
/// above its start.
pub open spec fn spec_rel_new(s: Seq<char>) -> Result<Comps, PathError> {
    if s.len() == 0 {
        Err(PathError::Absolutize)
    } else if starts_absolute(s) {
        Err(PathError::NoWorkingDirectory)
    } else if lexical(Seq::empty(), s).1 {
        Err(PathError::PathDiff)
    } else {
        Ok(lexical(Seq::empty(), s).0)
    }
}

/// The text of components joined by `/`.
pub open spec fn join_text(cs: Comps) -> Seq<char>
    decreases cs.len(),
{
    if cs.len() == 0 {
        Seq::empty()
    } else if cs.len() == 1 {
        cs[0]
    } else {
        join_text(cs.drop_last()) + seq!['/'] + cs.last()
    }
}

/// An absolute path's text: `/` alone for the root.
pub open spec fn abs_text(cs: Comps) -> Seq<char> {
    if cs.len() == 0 {
        seq!['/']
    } else {
        seq!['/'] + join_text(cs)
    }
}

/// A relative path's text: `.` for the empty path.
pub open spec fn rel_text(cs: Comps) -> Seq<char> {
    if cs.len() == 0 {
        seq!['.']
    } else {
        join_text(cs)
    }
}

/// A resolved component: not empty, not `.` or `..`, and free of `/`.
pub open spec fn comp_ok(c: Seq<char>) -> bool {
    c.len() > 0 && !is_dot(c) && !is_dot_dot(c) && !c.contains('/')
}

pub open spec fn comps_ok(cs: Comps) -> bool {
    forall|i: int| 0 <= i < cs.len() ==> comp_ok(#[trigger] cs[i])
}

/// Scanning keeps the stack made of resolved components, and the component
/// under way free of `/`.
proof fn lemma_scan_ok(init: Comps, s: Seq<char>)
    requires
        comps_ok(init),
    ensures
        comps_ok(scan(init, s).0),
        !scan(init, s).1.contains('/'),
    decreases s.len(),
{
    if s.len() > 0 {
        lemma_scan_ok(init, s.drop_last());
        let (st, cur, esc) = scan(init, s.drop_last());
        if s.last() != '/' {
            assert forall|k: int| 0 <= k < cur.push(s.last()).len() implies cur.push(s.last())[k] != '/' by {
                if k < cur.len() {
                    assert(cur[k] != '/') by {
                        if cur[k] == '/' {
                            assert(cur.contains('/'));
                        }
                    }
                }
            }
        } else {
            lemma_push_ok(st, esc, cur);
            assert(!Seq::<char>::empty().contains('/'));
        }
    }
}

proof fn lemma_push_ok(stack: Comps, escaped: bool, c: Seq<char>)
    requires
        comps_ok(stack),
        !c.contains('/'),
    ensures
        comps_ok(push_comp(stack, escaped, c).0),
{
    let r = push_comp(stack, escaped, c).0;
    assert forall|i: int| 0 <= i < r.len() implies comp_ok(#[trigger] r[i]) by {
        if i < stack.len() && (r.len() <= stack.len() || i < r.len() - 1) {
            assert(r[i] == stack[i]);
        }
    }
}

/// Lexical resolution on top of resolved components gives resolved
/// components.
proof fn lemma_lexical_ok(init: Comps, s: Seq<char>)
    requires
        comps_ok(init),
    ensures
        comps_ok(lexical(init, s).0),
{
    lemma_scan_ok(init, s);
    let (st, cur, esc) = scan(init, s);
    lemma_push_ok(st, esc, cur);
}

/// Scanning text free of `/` extends the component under way.
proof fn lemma_scan_plain(init: Comps, s: Seq<char>, t: Seq<char>)
    requires
        !t.contains('/'),
    ensures
        scan(init, s + t) == (scan(init, s).0, scan(init, s).1 + t, scan(init, s).2),
    decreases t.len(),
{
    if t.len() == 0 {
        assert(s + t =~= s);
        assert(scan(init, s).1 + t =~= scan(init, s).1);
    } else {
        let t0 = t.drop_last();
        assert(!t0.contains('/')) by {
            if t0.contains('/') {
                let k = choose|k: int| 0 <= k < t0.len() && t0[k] == '/';
                assert(t[k] == '/');
            }
        }
        lemma_scan_plain(init, s, t0);
        assert((s + t).drop_last() =~= s + t0);
        assert((s + t).last() == t.last());
        assert(t.last() != '/') by {
            assert(t[t.len() - 1] == t.last());
        }
        assert(scan(init, s).1 + t0 + seq![t.last()] =~= scan(init, s).1 + t);
        assert((scan(init, s).1 + t0).push(t.last()) =~= scan(init, s).1 + t0 + seq![t.last()]);
    }
}

/// Scanning the text of resolved components stops with the last one under
/// way.
proof fn lemma_scan_join(cs: Comps)
    requires
        cs.len() > 0,
        comps_ok(cs),
    ensures
        scan(Seq::empty(), join_text(cs)) == (cs.drop_last(), cs.last(), false),
    decreases cs.len(),
{
    assert(comp_ok(cs.last()));
    if cs.len() == 1 {
        lemma_scan_plain(Seq::empty(), Seq::empty(), cs[0]);
        assert(Seq::<char>::empty() + cs[0] =~= cs[0]);
        assert(cs.drop_last() =~= Seq::<Seq<char>>::empty());
    } else {
        let d = cs.drop_last();
        assert(comps_ok(d)) by {
            assert forall|i: int| 0 <= i < d.len() implies comp_ok(#[trigger] d[i]) by {
                assert(d[i] == cs[i]);
            }
        }
        lemma_scan_join(d);
        let a = join_text(d) + seq!['/'];
        assert(a.drop_last() =~= join_text(d));
        assert(a.last() == '/');
        assert(comp_ok(d.last()));
        assert(d.drop_last().push(d.last()) =~= d);
        assert(scan(Seq::empty(), a) == (d, Seq::<char>::empty(), false));
        lemma_scan_plain(Seq::empty(), a, cs.last());
        assert(Seq::<char>::empty() + cs.last() =~= cs.last());
    }
}

/// The text of resolved components reads back as the same relative path.
pub proof fn lemma_rel_text_round_trip(cs: Comps)
    requires
        comps_ok(cs),
    ensures
        spec_rel_new(rel_text(cs)) == Ok::<Comps, PathError>(cs),
{
    if cs.len() == 0 {
        let t = seq!['.'];
        assert(t.drop_last() =~= Seq::<char>::empty());
        assert(scan(Seq::empty(), t.drop_last()) == (Seq::<Seq<char>>::empty(), Seq::<char>::empty(), false));
        assert(Seq::<char>::empty().push('.') =~= seq!['.']);
        assert(scan(Seq::empty(), t) == (Seq::<Seq<char>>::empty(), seq!['.'], false));
        assert(is_dot(seq!['.']));
        assert(cs =~= Seq::<Seq<char>>::empty());
    } else {
        lemma_scan_join(cs);
        assert(comp_ok(cs.last()));
        assert(cs.drop_last().push(cs.last()) =~= cs);
        lemma_join_starts(cs);
    }
}

/// The text of resolved components is not empty and does not start with `/`.
proof fn lemma_join_starts(cs: Comps)
    requires
        cs.len() > 0,
        comps_ok(cs),
    ensures
        join_text(cs).len() > 0,
        join_text(cs)[0] == cs[0][0],
    decreases cs.len(),
{
    assert(comp_ok(cs[0]));
    if cs.len() > 1 {
        let d = cs.drop_last();
        assert(comps_ok(d)) by {
            assert forall|i: int| 0 <= i < d.len() implies comp_ok(#[trigger] d[i]) by {
                assert(d[i] == cs[i]);
            }
        }
        lemma_join_starts(d);
    }
    assert(cs[0][0] != '/') by {
        if cs[0][0] == '/' {
            assert(cs[0].contains('/'));
        }
    }
}

/// An absolute path, fully resolved: its components hold no `.` or `..`.
#[derive(Debug, Clone, PartialEq, Eq, Hash)]
pub struct AbsPath {
    pub comps: Vec<String>,
}

/// A relative path, normalised: it never climbs above its base.
#[derive(Debug, Clone, PartialEq, Eq, Hash)]
pub struct RelPath {
    pub comps: Vec<String>,
}

impl AbsPath {
    /// Every component is resolved.
    pub open spec fn wf(&self) -> bool {
        comps_ok(self@)
    }
}

impl RelPath {
    /// Every component is resolved.
    pub open spec fn wf(&self) -> bool {
        comps_ok(self@)
    }
}

impl View for AbsPath {
    type V = Comps;

    open spec fn view(&self) -> Comps {
        comps_of(self.comps@)
    }
}

impl View for RelPath {
    type V = Comps;

    open spec fn view(&self) -> Comps {
        comps_of(self.comps@)
    }
}

/// Copies a vector of components.
fn copy_comps(v: &Vec<String>) -> (r: Vec<String>)
    ensures
        comps_of(r@) == comps_of(v@),
{
    let mut r: Vec<String> = Vec::new();
    let mut i: usize = 0;
    while i < v.len()
        invariant
            i <= v.len(),
            comps_of(r@) =~= comps_of(v@.take(i as int)),
        decreases v.len() - i,
    {
        r.push(v[i].clone());
        i = i + 1;
        assert(comps_of(v@.take(i as int)) =~= comps_of(v@.take(i - 1)).push(v@[i - 1]@));
    }
    assert(v@.take(v.len() as int) =~= v@);
    r
}

/// Applies one raw component, the characters `s[start..end]`, to the stack.
fn push_comp_exec(stack: &mut Vec<String>, escaped: &mut bool, s: &str, start: usize, end: usize)
    requires
        start <= end <= s@.len(),
    ensures
        (comps_of(final(stack)@), *final(escaped)) == push_comp(
            comps_of(old(stack)@),
            *old(escaped),
            s@.subrange(start as int, end as int),
        ),
{
    let ghost c = s@.subrange(start as int, end as int);
    if start == end {
        return;
    }
    let len = end - start;
    if len == 1 && s.get_char(start) == '.' {
        assert(is_dot(c));
        return;
    }
    if len == 2 && s.get_char(start) == '.' && s.get_char(start + 1) == '.' {
        assert(is_dot_dot(c));
        assert(!is_dot(c));
        if stack.len() > 0 {
            stack.pop();
            assert(comps_of(stack@) =~= comps_of(old(stack)@).drop_last());
        } else {
            *escaped = true;
        }
        return;
    }
    assert(!is_dot(c)) by {
        if len == 1 {
            assert(c[0] == s@[start as int]);
        } else {
            assert(c.len() != 1);
        }
    }
    assert(!is_dot_dot(c)) by {
        if len == 2 {
            assert(c[0] == s@[start as int]);
            assert(c[1] == s@[start + 1]);
        } else {
            assert(c.len() != 2);
        }
    }
    let piece = s.substring_char(start, end).to_owned();
    stack.push(piece);
    assert(comps_of(stack@) =~= comps_of(old(stack)@).push(c));
}

/// Lexical resolution of `s` on top of `init`, as `lexical` states it.
fn resolve_text(init: Vec<String>, s: &str) -> (r: (Vec<String>, bool))
    ensures
        (comps_of(r.0@), r.1) == lexical(comps_of(init@), s@),
{
    let n = s.unicode_len();
    let mut stack = init;
    let mut escaped = false;
    let mut start: usize = 0;
    let mut i: usize = 0;
    let ghost base = comps_of(stack@);
    while i < n
        invariant
            n == s@.len(),
            start <= i <= n,
            scan(base, s@.take(i as int)) == (
                comps_of(stack@),
                s@.subrange(start as int, i as int),
                escaped,
            ),
        decreases n - i,
    {
        let ch = s.get_char(i);
        assert(s@.take(i + 1).drop_last() =~= s@.take(i as int));
        assert(s@.take(i + 1).last() == ch);
        if ch == '/' {
            push_comp_exec(&mut stack, &mut escaped, s, start, i);
            start = i + 1;
            assert(s@.subrange(start as int, start as int) =~= Seq::<char>::empty());
        } else {
            assert(s@.subrange(start as int, i + 1) =~= s@.subrange(start as int, i as int).push(
                ch,
            ));
        }
        i = i + 1;
    }
    assert(s@.take(n as int) =~= s@);
    push_comp_exec(&mut stack, &mut escaped, s, start, n);
    (stack, escaped)
}

/// The text of a component sequence joined by `/`, after `prefix`.
fn join_exec(prefix: String, v: &Vec<String>) -> (r: String)
    ensures
        r@ == prefix@ + join_text(comps_of(v@)),
{
    let mut r = prefix;
    let mut i: usize = 0;
    while i < v.len()
        invariant
            i <= v.len(),
            r@ == prefix@ + join_text(comps_of(v@.take(i as int))),
        decreases v.len() - i,
    {
        let ghost before = comps_of(v@.take(i as int));
        let ghost after = comps_of(v@.take(i + 1));
        assert(after.drop_last() =~= before);
        proof {
            reveal_strlit("/");
        }
        if i > 0 {
            r = r.concat("/");
        }
        r = r.concat(v[i].as_str());
        proof {
            assert(after.last() == v@[i as int]@);
            if i == 0 {
                assert(join_text(before) =~= Seq::<char>::empty());
                assert(join_text(after) == after[0]);
            } else {
                assert(join_text(after) == join_text(before) + seq!['/'] + after.last());
            }
            assert(r@ =~= prefix@ + join_text(after));
        }
        i = i + 1;
    }
    assert(v@.take(v.len() as int) =~= v@);
    r
}

impl AbsPath {
    /// A copy of this path.
    pub fn copy_path(&self) -> (r: AbsPath)
        ensures
            r@ == self@,
            r.wf() == self.wf(),
    {
        AbsPath { comps: copy_comps(&self.comps) }
    }

    /// Normalises an absolute path text on its own (no working directory).
    pub fn new(path: &str) -> (r: Result<AbsPath, PathError>)
        ensures
            r matches Ok(p) ==> p.wf(),
            match r {
                Ok(p) => spec_to_absolute(path@, None) == Ok::<Comps, PathError>(p@),
                Err(e) => spec_to_absolute(path@, None) == Err::<Comps, PathError>(e),
            },
    {
        AbsPath::resolve(path, None)
    }

    /// Resolves `path` against the virtual working directory: an absolute
    /// text stands alone, a relative one is joined to the working directory;
    /// `.` and `..` are collapsed without reading the file system.
    pub fn with_virtual_working_dir(path: &str, virtual_cwd: &AbsPath) -> (r: Result<AbsPath, PathError>)
        ensures
            virtual_cwd.wf() ==> (r matches Ok(p) ==> p.wf()),
            match r {
                Ok(p) => spec_to_absolute(path@, Some(virtual_cwd@)) == Ok::<Comps, PathError>(p@),
                Err(e) => spec_to_absolute(path@, Some(virtual_cwd@)) == Err::<Comps, PathError>(e),
            },
    {
        AbsPath::resolve(path, Some(virtual_cwd))
    }

    /// Resolution with an optional working directory; a relative text
    /// without one fails with `NoWorkingDirectory`.
    pub fn resolve(path: &str, virtual_cwd: Option<&AbsPath>) -> (r: Result<AbsPath, PathError>)
        ensures
            (match virtual_cwd {
                Some(c) => c.wf(),
                None => true,
            }) ==> (r matches Ok(p) ==> p.wf()),
            match r {
                Ok(p) => spec_to_absolute(path@, match virtual_cwd {
                    Some(c) => Some(c@),
                    None => None,
                }) == Ok::<Comps, PathError>(p@),
                Err(e) => spec_to_absolute(path@, match virtual_cwd {
                    Some(c) => Some(c@),
                    None => None,
                }) == Err::<Comps, PathError>(e),
            },
    {
        if path.unicode_len() == 0 {
            return Err(PathError::Absolutize);
        }
        if path.get_char(0) == '/' {
            let (comps, _) = resolve_text(Vec::new(), path);
            assert(comps_of(Seq::<String>::empty()) =~= Seq::<Seq<char>>::empty());
            proof {
                lemma_lexical_ok(Seq::empty(), path@);
            }
            return Ok(AbsPath { comps });
        }
        match virtual_cwd {
            None => Err(PathError::NoWorkingDirectory),
            Some(cwd) => {
                let (comps, _) = resolve_text(copy_comps(&cwd.comps), path);
                proof {
                    if cwd.wf() {
                        lemma_lexical_ok(cwd@, path@);
                    }
                }
                Ok(AbsPath { comps })
            },
        }
    }

    /// The path `rel` below this one.
    pub fn join(&self, rel: &RelPath) -> (r: AbsPath)
        ensures
            r@ == self@ + rel@,
            self.wf() && rel.wf() ==> r.wf(),
    {
        let mut comps = copy_comps(&self.comps);
        let mut i: usize = 0;
        while i < rel.comps.len()
            invariant
                i <= rel.comps.len(),
                comps_of(comps@) =~= self@ + comps_of(rel.comps@.take(i as int)),
            decreases rel.comps.len() - i,
        {
            let ghost prev = comps@;
            comps.push(rel.comps[i].clone());
            assert(comps_of(comps@) =~= comps_of(prev).push(rel.comps@[i as int]@));
            assert(comps_of(rel.comps@.take(i + 1)) =~= comps_of(rel.comps@.take(i as int)).push(
                rel.comps@[i as int]@,
            ));
            i = i + 1;
        }
        assert(rel.comps@.take(rel.comps.len() as int) =~= rel.comps@);
        AbsPath { comps }
    }

    /// The path's text: `/` for the root, else `/` before each component.
    pub fn to_string(&self) -> (r: String)
        ensures
            r@ == abs_text(self@),
    {
        proof {
            reveal_strlit("/");
        }
        let slash = String::from_str("/");
        if self.comps.len() == 0 {
            return slash;
        }
        join_exec(slash, &self.comps)
    }
}

impl RelPath {
    /// A copy of this path.
    pub fn copy_path(&self) -> (r: RelPath)
        ensures
            r@ == self@,
            r.wf() == self.wf(),
    {
        RelPath { comps: copy_comps(&self.comps) }
    }

    /// Normalises a relative path text on its own; an absolute text fails
    /// with `NoWorkingDirectory`, one that climbs above its start with
    /// `PathDiff`, an empty one with `Absolutize`.
    pub fn new(path: &str) -> (r: Result<RelPath, PathError>)
        ensures
            r matches Ok(p) ==> p.wf(),
            match r {
                Ok(p) => spec_rel_new(path@) == Ok::<Comps, PathError>(p@),
                Err(e) => spec_rel_new(path@) == Err::<Comps, PathError>(e),
            },
    {
        if path.unicode_len() == 0 {
            return Err(PathError::Absolutize);
        }
        if path.get_char(0) == '/' {
            return Err(PathError::NoWorkingDirectory);
        }
        let (comps, escaped) = resolve_text(Vec::new(), path);
        assert(comps_of(Seq::<String>::empty()) =~= Seq::<Seq<char>>::empty());
        proof {
            lemma_lexical_ok(Seq::empty(), path@);
        }
        if escaped {
            Err(PathError::PathDiff)
        } else {
            Ok(RelPath { comps })
        }
    }

    /// Resolves `path` against the virtual working directory and keeps the
    /// part below it; `PathDiff` where the result does not lie under it.
    pub fn with_virtual_working_dir(path: &str, virtual_cwd: &AbsPath) -> (r: Result<RelPath, PathError>)
        ensures
            virtual_cwd.wf() ==> (r matches Ok(p) ==> p.wf()),
            match r {
                Ok(p) => spec_to_relative(path@, virtual_cwd@) == Ok::<Comps, PathError>(p@),
                Err(e) => spec_to_relative(path@, virtual_cwd@) == Err::<Comps, PathError>(e),
            },
    {
        let abs = AbsPath::with_virtual_working_dir(path, virtual_cwd)?;
        match virtual_cwd.relative_of(&abs) {
            Some(rel) => Ok(rel),
            None => Err(PathError::PathDiff),
        }
    }

    /// The path's text: `.` for the empty path, else the components joined
    /// by `/`.
    pub fn to_string(&self) -> (r: String)
        ensures
            r@ == rel_text(self@),
    {
        proof {
            reveal_strlit(".");
        }
        if self.comps.len() == 0 {
            return String::from_str(".");
        }
        join_exec(String::new(), &self.comps)
    }
}

impl AbsPath {
    /// The part of `p` below this path, where this path is a prefix of it.
    pub fn relative_of(&self, p: &AbsPath) -> (r: Option<RelPath>)
        ensures
            p.wf() ==> (r matches Some(rel) ==> rel.wf()),
            match r {
                Some(rel) => strip_base(p@, self@) == Some(rel@),
                None => strip_base(p@, self@) is None,
            },
    {
        let n = self.comps.len();
        if n > p.comps.len() {
            return None;
        }
        let mut i: usize = 0;
        while i < n
            invariant
                n == self.comps.len() <= p.comps.len(),
                i <= n,
                forall|j: int| 0 <= j < i ==> self.comps@[j]@ == p.comps@[j]@,
            decreases n - i,
        {
            if self.comps[i] != p.comps[i] {
                assert(p@.take(n as int)[i as int] != self@[i as int]);
                return None;
            }
            i = i + 1;
        }
        assert(p@.take(n as int) =~= self@);
        let mut comps: Vec<String> = Vec::new();
        let mut k: usize = n;
        while k < p.comps.len()
            invariant
                n <= k <= p.comps.len(),
                comps_of(comps@) =~= comps_of(p.comps@.subrange(n as int, k as int)),
            decreases p.comps.len() - k,
        {
            comps.push(p.comps[k].clone());
            k = k + 1;
            assert(comps_of(p.comps@.subrange(n as int, k as int)) =~= comps_of(
                p.comps@.subrange(n as int, k - 1),
            ).push(p.comps@[k - 1]@));
        }
        assert(p@.skip(n as int) =~= comps_of(p.comps@.subrange(n as int, p.comps.len() as int)));
        Some(RelPath { comps })
    }
}

} // verus!
