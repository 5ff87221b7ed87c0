//! Filesystem paths as sequences of components.
//!
//! A `ServerPath` is what `std::path::Path::components` makes of a path on a
//! Unix system: an optional root, then the names between separators.  Empty
//! names and `.` names are dropped, except that a relative path keeps a
//! leading `.`.  The library joins, strips, compares and prints paths in this
//! form.
use vstd::prelude::*;
use crate::text::{chars_of, string_of, push_all, push_str};

verus! {

/// The separator between path components.
pub const SEPARATOR: char = '/';

/// A path, as its root flag and its names.
#[derive(Clone, Debug, PartialEq, Eq)]
pub struct ServerPath {
    pub absolute: bool,
    pub parts: Vec<String>,
}

/// The mathematical value of a path.
pub struct PathView {
    pub absolute: bool,
    pub parts: Seq<Seq<char>>,
}

/// The characters of each string.
pub open spec fn views_of(v: Seq<String>) -> Seq<Seq<char>> {
    Seq::new(v.len(), |i: int| v[i]@)
}

impl View for ServerPath {
    type V = PathView;

    open spec fn view(&self) -> PathView {
        PathView { absolute: self.absolute, parts: views_of(self.parts@) }
    }
}

/// The one-character sequence `.`.
pub open spec fn dot() -> Seq<char> {
    seq!['.']
}

/// The two-character sequence `..`.
pub open spec fn dot_dot() -> Seq<char> {
    seq!['.', '.']
}

/// `seg` is kept as the `i`-th name of a path.
pub open spec fn keeps_segment(seg: Seq<char>, i: int) -> bool {
    seg.len() > 0 && (seg != dot() || i == 0)
}

/// The pieces of `s` between separators, empty ones included.
pub open spec fn segments(s: Seq<char>) -> Seq<Seq<char>>
    decreases s.len(),
{
    if s.len() == 0 {
        seq![Seq::<char>::empty()]
    } else {
        let prev = segments(s.drop_last());
        if s.last() == SEPARATOR {
            prev.push(Seq::<char>::empty())
        } else {
            prev.update(prev.len() - 1, prev.last().push(s.last()))
        }
    }
}

/// The kept segments among the first `n` of `segs`.
pub open spec fn kept_segments(segs: Seq<Seq<char>>, n: int) -> Seq<Seq<char>>
    decreases n,
{
    if n <= 0 {
        Seq::empty()
    } else {
        let r = kept_segments(segs, n - 1);
        if keeps_segment(segs[n - 1], n - 1) {
            r.push(segs[n - 1])
        } else {
            r
        }
    }
}

/// The path that the text `s` names.
pub open spec fn parse_path(s: Seq<char>) -> PathView {
    PathView {
        absolute: s.len() > 0 && s[0] == SEPARATOR,
        parts: kept_segments(segments(s), segments(s).len() as int),
    }
}

/// A well-formed path: names are non-empty, hold no separator, and `.`
/// only leads a relative path.
pub open spec fn path_wf(p: PathView) -> bool {
    forall|i: int| 0 <= i < p.parts.len() ==> {
        &&& (#[trigger] p.parts[i]).len() > 0
        &&& !p.parts[i].contains(SEPARATOR)
        &&& (p.parts[i] == dot() ==> i == 0 && !p.absolute)
    }
}

/// The names joined by separators.
pub open spec fn join_parts(parts: Seq<Seq<char>>) -> Seq<char>
    decreases parts.len(),
{
    if parts.len() == 0 {
        Seq::empty()
    } else if parts.len() == 1 {
        parts[0]
    } else {
        join_parts(parts.drop_last()).push(SEPARATOR) + parts.last()
    }
}

/// How a path prints.
pub open spec fn render_path(p: PathView) -> Seq<char> {
    if p.absolute {
        seq![SEPARATOR] + join_parts(p.parts)
    } else {
        join_parts(p.parts)
    }
}

/// The names of `parts` without a leading `.`.
pub open spec fn without_leading_dot(parts: Seq<Seq<char>>) -> Seq<Seq<char>> {
    if parts.len() > 0 && parts[0] == dot() {
        parts.drop_first()
    } else {
        parts
    }
}

/// `base.join(rel)`: an absolute `rel` replaces `base`, and so does any
/// `rel` when `base` is empty; otherwise the names are appended.
pub open spec fn join_path(base: PathView, rel: PathView) -> PathView {
    if rel.absolute || (!base.absolute && base.parts.len() == 0) {
        rel
    } else {
        PathView { absolute: base.absolute, parts: base.parts + without_leading_dot(rel.parts) }
    }
}

/// `p.strip_prefix(base)`: the rest of `p` after the components of `base`.
pub open spec fn strip_path_prefix(p: PathView, base: PathView) -> Option<PathView> {
    if p.absolute == base.absolute && base.parts.len() <= p.parts.len()
        && p.parts.subrange(0, base.parts.len() as int) == base.parts {
        Some(PathView { absolute: false, parts: p.parts.subrange(base.parts.len() as int, p.parts.len() as int) })
    } else {
        None
    }
}

/// The components that `Path::iter` yields, each as text: `/` for the
/// root, then the names.
pub open spec fn path_components(p: PathView) -> Seq<Seq<char>> {
    if p.absolute {
        seq![seq![SEPARATOR]] + p.parts
    } else {
        p.parts
    }
}

/// The path without its last name.
pub open spec fn parent_path(p: PathView) -> PathView {
    PathView { absolute: p.absolute, parts: p.parts.drop_last() }
}

/// Lexicographic order on characters by code point.
pub open spec fn chars_less(a: Seq<char>, b: Seq<char>) -> bool
    decreases a.len(),
{
    if a.len() == 0 {
        b.len() > 0
    } else if b.len() == 0 {
        false
    } else if a[0] != b[0] {
        (a[0] as u32) < (b[0] as u32)
    } else {
        chars_less(a.drop_first(), b.drop_first())
    }
}

impl ServerPath {
    /// The empty relative path.
    pub fn empty() -> (res: ServerPath)
        ensures
            res@.parts.len() == 0,
            !res@.absolute,
            path_wf(res@),
    {
        ServerPath { absolute: false, parts: Vec::new() }
    }

    /// The path that `s` names (`Path::new(s)`, seen through its components).
    pub fn parse(s: &str) -> (res: ServerPath)
        ensures
            res@ == parse_path(s@),
            path_wf(res@),
    {
        proof {
            parsed_paths_are_well_formed(s@);
        }
        let cs = chars_of(s);
        let absolute = cs.len() > 0 && cs[0] == SEPARATOR;
        let mut parts: Vec<String> = Vec::new();
        let mut current: Vec<char> = Vec::new();
        let mut seg_index: usize = 0;
        let mut i: usize = 0;
        proof {
            assert(cs@.take(0) =~= Seq::<char>::empty());
        }
        while i < cs.len()
            invariant
                i <= cs.len(),
                cs@ == s@,
                segments(cs@.take(i as int)).len() == seg_index + 1,
                segments(cs@.take(i as int)).last() == current@,
                views_of(parts@) == kept_segments(segments(cs@.take(i as int)), seg_index as int),
                seg_index <= i,
            decreases cs.len() - i,
        {
            let c = cs[i];
            let ghost before = cs@.take(i as int);
            let ghost after = cs@.take(i + 1);
            proof {
                assert(after.drop_last() =~= before);
                assert(after.last() == c);
            }
            if c == SEPARATOR {
                let keep = current.len() > 0 && !(current.len() == 1 && current[0] == '.' && seg_index > 0);
                proof {
                    assert(keep == keeps_segment(current@, seg_index as int)) by {
                        if current@.len() == 1 && current@[0] == '.' {
                            assert(current@ =~= dot());
                        }
                        if current@ == dot() {
                            assert(current@.len() == 1 && current@[0] == '.');
                        }
                    }
                    let segs = segments(before);
                    assert(segments(after) == segs.push(Seq::<char>::empty()));
                    assert(segments(after).subrange(0, seg_index + 1) =~= segs);
                    assert(segs.subrange(0, seg_index + 1) =~= segs);
                    lemma_kept_prefix(segments(after), segs, seg_index as int + 1);
                }
                if keep {
                    let piece = string_of(&current);
                    parts.push(piece);
                }
                proof {
                    let segs = segments(before);
                    assert(views_of(parts@) =~= kept_segments(segments(after), seg_index + 1));
                }
                current = Vec::new();
                seg_index = seg_index + 1;
            } else {
                proof {
                    let segs = segments(before);
                    assert(segments(after) == segs.update(segs.len() - 1, segs.last().push(c)));
                    assert(segments(after).subrange(0, seg_index as int) =~= segs.subrange(0, seg_index as int));
                    lemma_kept_prefix(segments(after), segs, seg_index as int);
                    assert(segments(after).last() =~= current@.push(c));
                }
                current.push(c);
            }
            i = i + 1;
        }
        proof {
            assert(cs@.take(i as int) =~= s@);
        }
        let keep = current.len() > 0 && !(current.len() == 1 && current[0] == '.' && seg_index > 0);
        proof {
            assert(keep == keeps_segment(current@, seg_index as int)) by {
                if current@.len() == 1 && current@[0] == '.' {
                    assert(current@ =~= dot());
                }
                if current@ == dot() {
                    assert(current@.len() == 1 && current@[0] == '.');
                }
            }
        }
        if keep {
            let piece = string_of(&current);
            parts.push(piece);
        }
        proof {
            assert(views_of(parts@) =~= kept_segments(segments(s@), seg_index + 1));
            assert(absolute == (s@.len() > 0 && s@[0] == SEPARATOR));
        }
        ServerPath { absolute, parts }
    }
}

/// `kept_segments` only looks at the first `n` segments.
pub proof fn lemma_kept_prefix(a: Seq<Seq<char>>, b: Seq<Seq<char>>, n: int)
    requires
        0 <= n <= a.len(),
        n <= b.len(),
        a.subrange(0, n) == b.subrange(0, n),
    ensures
        kept_segments(a, n) == kept_segments(b, n),
    decreases n,
{
    if n > 0 {
        assert(a.subrange(0, n - 1) =~= a.subrange(0, n).subrange(0, n - 1));
        assert(b.subrange(0, n - 1) =~= b.subrange(0, n).subrange(0, n - 1));
        assert(a[n - 1] == a.subrange(0, n)[n - 1]);
        assert(b[n - 1] == b.subrange(0, n)[n - 1]);
        lemma_kept_prefix(a, b, n - 1);
    }
}


/// A copy of each string.
pub fn clone_strings(v: &Vec<String>) -> (res: Vec<String>)
    ensures
        res@ == v@,
        views_of(res@) == views_of(v@),
{
    let mut res: Vec<String> = Vec::new();
    let mut i: usize = 0;
    while i < v.len()
        invariant
            i <= v.len(),
            res@ == v@.take(i as int),
        decreases v.len() - i,
    {
        res.push(v[i].clone());
        i = i + 1;
        assert(res@ =~= v@.take(i as int));
    }
    assert(res@ =~= v@);
    res
}

/// Views of a vector after a push.
pub proof fn lemma_views_push(v: Seq<String>, x: String)
    ensures
        views_of(v.push(x)) == views_of(v).push(x@),
{
    assert(views_of(v.push(x)) =~= views_of(v).push(x@));
}

/// Joining one more name.
pub proof fn lemma_join_parts_push(parts: Seq<Seq<char>>, last: Seq<char>)
    requires
        parts.len() > 0,
    ensures
        join_parts(parts.push(last)) == join_parts(parts).push(SEPARATOR) + last,
{
    assert(parts.push(last).drop_last() =~= parts);
}

impl ServerPath {
    /// A copy of the path.
    pub fn clone_path(&self) -> (res: ServerPath)
        ensures
            res@ == self@,
    {
        ServerPath { absolute: self.absolute, parts: clone_strings(&self.parts) }
    }

    /// The path as text, names separated by `/`.
    pub fn render(&self) -> (res: String)
        ensures
            res@ == render_path(self@),
    {
        let mut out: Vec<char> = Vec::new();
        if self.absolute {
            out.push(SEPARATOR);
        }
        let ghost start = out@;
        let mut i: usize = 0;
        while i < self.parts.len()
            invariant
                i <= self.parts.len(),
                out@ == start + join_parts(views_of(self.parts@).take(i as int)),
            decreases self.parts.len() - i,
        {
            let ghost prev = views_of(self.parts@).take(i as int);
            if i > 0 {
                out.push(SEPARATOR);
            }
            push_str(&mut out, self.parts[i].as_str());
            proof {
                let next = views_of(self.parts@).take(i + 1);
                if i == 0 {
                    assert(next =~= seq![self.parts@[0]@]);
                    assert(prev =~= Seq::<Seq<char>>::empty());
                } else {
                    assert(next =~= prev.push(self.parts@[i as int]@));
                    lemma_join_parts_push(prev, self.parts@[i as int]@);
                }
                assert(out@ =~= start + join_parts(next));
            }
            i = i + 1;
        }
        proof {
            assert(views_of(self.parts@).take(i as int) =~= views_of(self.parts@));
            if self.absolute {
                assert(start =~= seq![SEPARATOR]);
            } else {
                assert(start =~= Seq::<char>::empty());
            }
            assert(out@ =~= render_path(self@));
        }
        string_of(&out)
    }

    /// `self.join(rel)`.
    pub fn join(&self, rel: &ServerPath) -> (res: ServerPath)
        ensures
            res@ == join_path(self@, rel@),
    {
        if rel.absolute || (!self.absolute && self.parts.len() == 0) {
            return rel.clone_path();
        }
        let mut parts = clone_strings(&self.parts);
        let dot_name = crate::text::owned(".");
        let skip: usize = if rel.parts.len() > 0 && rel.parts[0] == dot_name { 1 } else { 0 };
        proof {
            reveal_strlit(".");
            if rel.parts@.len() > 0 {
                assert(views_of(rel.parts@)[0] == rel.parts@[0]@);
                if rel.parts@[0]@ == dot() {
                    assert(rel.parts@[0]@ =~= ".".view());
                }
                if rel.parts@[0]@ =~= ".".view() {
                    assert(rel.parts@[0]@ =~= dot());
                }
            }
        }
        let mut i: usize = skip;
        let ghost base = views_of(self.parts@);
        let ghost tail = without_leading_dot(views_of(rel.parts@));
        proof {
            if skip == 1 {
                assert(views_of(rel.parts@)[0] == dot());
                assert(tail =~= views_of(rel.parts@).drop_first());
            } else {
                assert(!(rel.parts@.len() > 0 && views_of(rel.parts@)[0] == dot()));
            }
            assert(tail =~= views_of(rel.parts@).subrange(skip as int, rel.parts@.len() as int));
        }
        while i < rel.parts.len()
            invariant
                skip <= i <= rel.parts.len(),
                tail == views_of(rel.parts@).subrange(skip as int, rel.parts@.len() as int),
                views_of(parts@) == base + views_of(rel.parts@).subrange(skip as int, i as int),
            decreases rel.parts.len() - i,
        {
            let ghost prev = parts@;
            let item = rel.parts[i].clone();
            parts.push(item);
            proof {
                lemma_views_push(prev, item);
            }
            i = i + 1;
            assert(views_of(parts@) =~= base + views_of(rel.parts@).subrange(skip as int, i as int));
        }
        assert(views_of(parts@) =~= base + tail);
        ServerPath { absolute: self.absolute, parts }
    }

    /// `self.join(rel)` for a path given as text.
    pub fn join_str(&self, rel: &str) -> (res: ServerPath)
        ensures
            res@ == join_path(self@, parse_path(rel@)),
    {
        let r = ServerPath::parse(rel);
        self.join(&r)
    }

    /// Whether the first `n` names of both paths agree.
    fn parts_agree(a: &Vec<String>, b: &Vec<String>, n: usize) -> (res: bool)
        requires
            n <= a.len(),
            n <= b.len(),
        ensures
            res == (views_of(a@).subrange(0, n as int) == views_of(b@).subrange(0, n as int)),
    {
        let mut i: usize = 0;
        while i < n
            invariant
                i <= n <= a.len(),
                n <= b.len(),
                views_of(a@).subrange(0, i as int) == views_of(b@).subrange(0, i as int),
            decreases n - i,
        {
            if a[i] != b[i] {
                assert(views_of(a@).subrange(0, n as int)[i as int] != views_of(b@).subrange(0, n as int)[i as int]);
                return false;
            }
            i = i + 1;
            assert(views_of(a@).subrange(0, i as int) =~= views_of(b@).subrange(0, i as int));
        }
        true
    }

    /// `self.strip_prefix(base)`.
    pub fn strip_prefix(&self, base: &ServerPath) -> (res: Option<ServerPath>)
        ensures
            res is Some <==> strip_path_prefix(self@, base@) is Some,
            res matches Some(r) ==> r@ == strip_path_prefix(self@, base@)->0,
    {
        if self.absolute != base.absolute || base.parts.len() > self.parts.len() {
            return None;
        }
        if !Self::parts_agree(&self.parts, &base.parts, base.parts.len()) {
            assert(views_of(base.parts@).subrange(0, base.parts@.len() as int) =~= views_of(base.parts@));
            return None;
        }
        assert(views_of(base.parts@).subrange(0, base.parts@.len() as int) =~= views_of(base.parts@));
        let mut parts: Vec<String> = Vec::new();
        let mut i: usize = base.parts.len();
        while i < self.parts.len()
            invariant
                base.parts.len() <= i <= self.parts.len(),
                views_of(parts@) == views_of(self.parts@).subrange(base.parts@.len() as int, i as int),
            decreases self.parts.len() - i,
        {
            let ghost prev = parts@;
            let item = self.parts[i].clone();
            parts.push(item);
            proof {
                lemma_views_push(prev, item);
            }
            i = i + 1;
            assert(views_of(parts@) =~= views_of(self.parts@).subrange(base.parts@.len() as int, i as int));
        }
        Some(ServerPath { absolute: false, parts })
    }

    /// `self.starts_with(base)`.
    pub fn starts_with(&self, base: &ServerPath) -> (res: bool)
        ensures
            res == strip_path_prefix(self@, base@) is Some,
    {
        if self.absolute != base.absolute || base.parts.len() > self.parts.len() {
            return false;
        }
        assert(views_of(base.parts@).subrange(0, base.parts@.len() as int) =~= views_of(base.parts@));
        Self::parts_agree(&self.parts, &base.parts, base.parts.len())
    }

    /// The components that `Path::iter` yields, each as text.
    pub fn components(&self) -> (res: Vec<String>)
        ensures
            views_of(res@) == path_components(self@),
    {
        let mut res: Vec<String> = Vec::new();
        if self.absolute {
            let root = crate::text::owned("/");
            proof {
                reveal_strlit("/");
            }
            res.push(root);
            proof {
                lemma_views_push(Seq::<String>::empty(), root);
                assert(Seq::<String>::empty().push(root) =~= res@);
                assert(views_of(Seq::<String>::empty()) =~= Seq::<Seq<char>>::empty());
                assert(root@ =~= seq![SEPARATOR]);
                assert(views_of(res@) =~= seq![seq![SEPARATOR]]);
            }
        }
        let ghost start = views_of(res@);
        let mut i: usize = 0;
        while i < self.parts.len()
            invariant
                i <= self.parts.len(),
                views_of(res@) == start + views_of(self.parts@).take(i as int),
            decreases self.parts.len() - i,
        {
            let ghost prev = res@;
            let item = self.parts[i].clone();
            res.push(item);
            proof {
                lemma_views_push(prev, item);
            }
            i = i + 1;
            assert(views_of(res@) =~= start + views_of(self.parts@).take(i as int));
        }
        assert(views_of(self.parts@).take(i as int) =~= views_of(self.parts@));
        assert(views_of(res@) =~= path_components(self@));
        res
    }

    /// Whether the last component is exactly the name `name`
    /// (`Path::ends_with` with a one-name relative path).
    pub fn ends_with_name(&self, name: &str) -> (res: bool)
        ensures
            res == (self@.parts.len() > 0 && self@.parts.last() == name@),
    {
        if self.parts.len() == 0 {
            return false;
        }
        let n = crate::text::owned(name);
        self.parts[self.parts.len() - 1] == n
    }
}

impl ServerPath {
    /// `PathBuf::pop`: drops the last name; false, and nothing changes, when
    /// there is none.
    pub fn pop(&mut self) -> (res: bool)
        ensures
            res == (old(self)@.parts.len() > 0),
            res ==> final(self)@ == parent_path(old(self)@),
            !res ==> final(self)@ == old(self)@,
    {
        if self.parts.len() == 0 {
            return false;
        }
        let ghost before = self.parts@;
        self.parts.pop();
        proof {
            assert(self.parts@ =~= before.drop_last());
            assert(views_of(self.parts@) =~= views_of(before).drop_last());
        }
        true
    }
}

/// Joining what is left after stripping a prefix gives the path back.
pub proof fn join_undoes_strip(p: PathView, base: PathView)
    requires
        path_wf(p),
        strip_path_prefix(p, base) is Some,
    ensures
        join_path(base, strip_path_prefix(p, base)->0) == p,
{
    let r = strip_path_prefix(p, base)->0;
    let n = base.parts.len() as int;
    if !base.absolute && base.parts.len() == 0 {
        assert(r.parts =~= p.parts);
    } else {
        if r.parts.len() > 0 && r.parts[0] == dot() {
            assert(p.parts[n] == dot());
            assert(n == 0 && !p.absolute);
        }
        assert(without_leading_dot(r.parts) == r.parts);
        assert(p.parts =~= base.parts + r.parts);
    }
}

/// The name of a path below `base`, written out and read back, joined onto
/// `base`, is the path again.
pub proof fn relative_name_joins_back(p: PathView, base: PathView)
    requires
        path_wf(p),
        strip_path_prefix(p, base) is Some,
    ensures
        join_path(base, parse_path(render_path(strip_path_prefix(p, base)->0))) == p,
{
    let r = strip_path_prefix(p, base)->0;
    let n = base.parts.len() as int;
    assert forall|i: int| 0 <= i < r.parts.len() implies {
        &&& (#[trigger] r.parts[i]).len() > 0
        &&& !r.parts[i].contains(SEPARATOR)
        &&& (r.parts[i] == dot() ==> i == 0 && !r.absolute)
    } by {
        assert(r.parts[i] == p.parts[n + i]);
    }
    parse_undoes_render(r);
    join_undoes_strip(p, base);
}

/// Stripping the base off a joined path gives back the names that were
/// joined, without a leading `.`.
pub proof fn strip_undoes_join(base: PathView, rel: PathView)
    requires
        !rel.absolute,
        base.absolute || base.parts.len() > 0,
    ensures
        strip_path_prefix(join_path(base, rel), base) == Some(PathView { absolute: false, parts: without_leading_dot(rel.parts) }),
{
    let j = join_path(base, rel);
    assert(j.parts.subrange(0, base.parts.len() as int) =~= base.parts);
    assert(j.parts.subrange(base.parts.len() as int, j.parts.len() as int) =~= without_leading_dot(rel.parts));
}

/// Splitting text joined at a separator splits each side.
pub proof fn lemma_segments_concat(a: Seq<char>, b: Seq<char>)
    ensures
        segments(a + seq![SEPARATOR] + b) == segments(a) + segments(b),
    decreases b.len(),
{
    let u = a + seq![SEPARATOR] + b;
    if b.len() == 0 {
        assert(u.drop_last() =~= a);
        assert(segments(b) =~= seq![Seq::<char>::empty()]);
        assert(segments(u) =~= segments(a) + segments(b));
    } else {
        assert(u.drop_last() =~= a + seq![SEPARATOR] + b.drop_last());
        lemma_segments_concat(a, b.drop_last());
        lemma_segments_nonempty(b.drop_last());
        if b.last() == SEPARATOR {
            assert(segments(u) =~= segments(a) + segments(b));
        } else {
            let prev = segments(b.drop_last());
            assert(segments(b) == prev.update(prev.len() - 1, prev.last().push(b.last())));
            assert(segments(u) =~= segments(a) + segments(b));
        }
    }
}

/// Text always splits into at least one piece.
pub proof fn lemma_segments_nonempty(s: Seq<char>)
    ensures
        segments(s).len() >= 1,
    decreases s.len(),
{
    if s.len() > 0 {
        lemma_segments_nonempty(s.drop_last());
    }
}

/// A name without separators is a single piece.
pub proof fn lemma_segments_name(n: Seq<char>)
    requires
        !n.contains(SEPARATOR),
    ensures
        segments(n) == seq![n],
    decreases n.len(),
{
    if n.len() > 0 {
        assert(!n.drop_last().contains(SEPARATOR)) by {
            if n.drop_last().contains(SEPARATOR) {
                let i = choose|i: int| 0 <= i < n.drop_last().len() && n.drop_last()[i] == SEPARATOR;
                assert(n[i] == SEPARATOR);
            }
        }
        lemma_segments_name(n.drop_last());
        assert(n.last() != SEPARATOR) by {
            assert(n[n.len() - 1] == n.last());
        }
        assert(n.drop_last().push(n.last()) =~= n);
        assert(segments(n) =~= seq![n]);
    } else {
        assert(n =~= Seq::<char>::empty());
    }
}

/// Names without separators, joined, split back into the names.
pub proof fn lemma_segments_join(parts: Seq<Seq<char>>)
    requires
        parts.len() > 0,
        forall|i: int| 0 <= i < parts.len() ==> !(#[trigger] parts[i]).contains(SEPARATOR),
    ensures
        segments(join_parts(parts)) == parts,
    decreases parts.len(),
{
    if parts.len() == 1 {
        lemma_segments_name(parts[0]);
        assert(parts =~= seq![parts[0]]);
    } else {
        let init = parts.drop_last();
        assert(forall|i: int| 0 <= i < init.len() ==> !(#[trigger] init[i]).contains(SEPARATOR)) by {
            assert forall|i: int| 0 <= i < init.len() implies !(#[trigger] init[i]).contains(SEPARATOR) by {
                assert(init[i] == parts[i]);
            }
        }
        lemma_segments_join(init);
        assert(!parts[parts.len() - 1].contains(SEPARATOR));
        lemma_segments_name(parts.last());
        lemma_segments_concat(join_parts(init), parts.last());
        assert(join_parts(init).push(SEPARATOR) + parts.last() =~= join_parts(init) + seq![SEPARATOR] + parts.last());
        assert(init + seq![parts.last()] =~= parts);
    }
}

/// Every piece of `segs` before `n` is kept: all of them are kept.
pub proof fn lemma_kept_all(segs: Seq<Seq<char>>, n: int)
    requires
        0 <= n <= segs.len(),
        forall|i: int| 0 <= i < n ==> keeps_segment(#[trigger] segs[i], i),
    ensures
        kept_segments(segs, n) == segs.take(n),
    decreases n,
{
    if n > 0 {
        lemma_kept_all(segs, n - 1);
        assert(segs.take(n) =~= segs.take(n - 1).push(segs[n - 1]));
    }
}

/// The first piece is dropped and every later piece before `n` is kept.
pub proof fn lemma_kept_tail(segs: Seq<Seq<char>>, n: int)
    requires
        1 <= n <= segs.len(),
        !keeps_segment(segs[0], 0),
        forall|i: int| 1 <= i < n ==> keeps_segment(#[trigger] segs[i], i),
    ensures
        kept_segments(segs, n) == segs.subrange(1, n),
    decreases n,
{
    if n == 1 {
        assert(kept_segments(segs, 0) =~= Seq::<Seq<char>>::empty());
        assert(segs.subrange(1, 1) =~= Seq::<Seq<char>>::empty());
    } else {
        lemma_kept_tail(segs, n - 1);
        assert(segs.subrange(1, n) =~= segs.subrange(1, n - 1).push(segs[n - 1]));
    }
}

/// Reading back how a well-formed path prints gives the path.
pub proof fn parse_undoes_render(p: PathView)
    requires
        path_wf(p),
    ensures
        parse_path(render_path(p)) == p,
{
    let s = render_path(p);
    if p.parts.len() == 0 {
        if p.absolute {
            assert(s =~= Seq::<char>::empty() + seq![SEPARATOR] + Seq::<char>::empty());
            lemma_segments_concat(Seq::<char>::empty(), Seq::<char>::empty());
            let segs = segments(s);
            assert(segs =~= seq![Seq::<char>::empty(), Seq::<char>::empty()]);
            reveal_with_fuel(kept_segments, 3);
            assert(kept_segments(segs, 2) =~= Seq::<Seq<char>>::empty());
        } else {
            assert(s =~= Seq::<char>::empty());
            reveal_with_fuel(kept_segments, 2);
            assert(segments(s) =~= seq![Seq::<char>::empty()]);
            assert(kept_segments(segments(s), 1) =~= Seq::<Seq<char>>::empty());
        }
        assert(p.parts =~= Seq::<Seq<char>>::empty());
        assert(parse_path(s) =~= p);
    } else {
        assert(forall|i: int| 0 <= i < p.parts.len() ==> !(#[trigger] p.parts[i]).contains(SEPARATOR));
        lemma_segments_join(p.parts);
        let j = join_parts(p.parts);
        if p.absolute {
            assert(s =~= Seq::<char>::empty() + seq![SEPARATOR] + j);
            lemma_segments_concat(Seq::<char>::empty(), j);
            let segs = segments(s);
            assert(segs =~= seq![Seq::<char>::empty()] + p.parts);
            assert forall|i: int| 1 <= i < segs.len() implies keeps_segment(#[trigger] segs[i], i) by {
                assert(segs[i] == p.parts[i - 1]);
            }
            lemma_kept_tail(segs, segs.len() as int);
            assert(segs.subrange(1, segs.len() as int) =~= p.parts);
        } else {
            let segs = segments(s);
            assert(segs == p.parts);
            assert forall|i: int| 0 <= i < segs.len() implies keeps_segment(#[trigger] segs[i], i) by {
                assert(segs[i] == p.parts[i]);
            }
            lemma_kept_all(segs, segs.len() as int);
            assert(segs.take(segs.len() as int) =~= segs);
            assert(p.parts[0].len() > 0);
            lemma_join_first(p.parts);
        }
        assert(parse_path(s) =~= p);
    }
}

/// Joined names start with the first name.
pub proof fn lemma_join_first(parts: Seq<Seq<char>>)
    requires
        parts.len() > 0,
        parts[0].len() > 0,
    ensures
        join_parts(parts).len() > 0,
        join_parts(parts)[0] == parts[0][0],
    decreases parts.len(),
{
    if parts.len() > 1 {
        let init = parts.drop_last();
        assert(init[0] == parts[0]);
        lemma_join_first(init);
    }
}

/// No piece of split text holds a separator.
pub proof fn lemma_segments_no_separator(s: Seq<char>)
    ensures
        forall|i: int| 0 <= i < segments(s).len() ==> !(#[trigger] segments(s)[i]).contains(SEPARATOR),
    decreases s.len(),
{
    if s.len() > 0 {
        lemma_segments_no_separator(s.drop_last());
        lemma_segments_nonempty(s.drop_last());
        let prev = segments(s.drop_last());
        if s.last() != SEPARATOR {
            let last = prev.last().push(s.last());
            assert(!prev[prev.len() - 1].contains(SEPARATOR));
            assert(!last.contains(SEPARATOR)) by {
                if last.contains(SEPARATOR) {
                    let k = choose|k: int| 0 <= k < last.len() && last[k] == SEPARATOR;
                    if k < prev.last().len() {
                        assert(prev.last()[k] == SEPARATOR);
                    }
                }
            }
            assert forall|i: int| 0 <= i < segments(s).len() implies !(#[trigger] segments(s)[i]).contains(SEPARATOR) by {
                if i < prev.len() - 1 {
                    assert(segments(s)[i] == prev[i]);
                }
            }
        } else {
            assert forall|i: int| 0 <= i < segments(s).len() implies !(#[trigger] segments(s)[i]).contains(SEPARATOR) by {
                if i < prev.len() {
                    assert(segments(s)[i] == prev[i]);
                } else {
                    assert(segments(s)[i] =~= Seq::<char>::empty());
                }
            }
        }
    }
}

/// The kept pieces, among the first `n`, are kept pieces.
proof fn lemma_kept_are_kept(segs: Seq<Seq<char>>, n: int)
    requires
        0 <= n <= segs.len(),
        forall|i: int| 0 <= i < segs.len() ==> !(#[trigger] segs[i]).contains(SEPARATOR),
    ensures
        forall|j: int| 0 <= j < kept_segments(segs, n).len() ==> {
            &&& (#[trigger] kept_segments(segs, n)[j]).len() > 0
            &&& !kept_segments(segs, n)[j].contains(SEPARATOR)
            &&& (kept_segments(segs, n)[j] == dot() ==> j == 0 && segs[0] == dot())
        },
    decreases n,
{
    if n > 0 {
        lemma_kept_are_kept(segs, n - 1);
        let r = kept_segments(segs, n - 1);
        if keeps_segment(segs[n - 1], n - 1) {
            assert forall|j: int| 0 <= j < kept_segments(segs, n).len() implies {
                &&& (#[trigger] kept_segments(segs, n)[j]).len() > 0
                &&& !kept_segments(segs, n)[j].contains(SEPARATOR)
                &&& (kept_segments(segs, n)[j] == dot() ==> j == 0 && segs[0] == dot())
            } by {
                if j < r.len() {
                    assert(kept_segments(segs, n)[j] == r[j]);
                } else {
                    assert(kept_segments(segs, n)[j] == segs[n - 1]);
                    if segs[n - 1] == dot() {
                        assert(n - 1 == 0);
                        lemma_kept_prefix_len(segs, n - 1);
                    }
                }
            }
        }
    }
}

/// No more pieces are kept than were looked at.
proof fn lemma_kept_prefix_len(segs: Seq<Seq<char>>, n: int)
    requires
        0 <= n <= segs.len(),
    ensures
        kept_segments(segs, n).len() <= n,
    decreases n,
{
    if n > 0 {
        lemma_kept_prefix_len(segs, n - 1);
    }
}

/// Every path read from text is well formed.
pub proof fn parsed_paths_are_well_formed(s: Seq<char>)
    ensures
        path_wf(parse_path(s)),
{
    let segs = segments(s);
    lemma_segments_no_separator(s);
    lemma_kept_are_kept(segs, segs.len() as int);
    let p = parse_path(s);
    assert forall|i: int| 0 <= i < p.parts.len() && (#[trigger] p.parts[i]) == dot() implies i == 0 && !p.absolute by {
        assert(segs[0] == dot());
        if p.absolute {
            lemma_segments_first(s);
            assert(segs[0].len() == 0);
        }
    }
}

/// Text that starts with a separator splits into an empty first piece.
proof fn lemma_segments_first(s: Seq<char>)
    requires
        s.len() > 0,
        s[0] == SEPARATOR,
    ensures
        segments(s)[0].len() == 0,
{
    assert(s =~= Seq::<char>::empty() + seq![SEPARATOR] + s.drop_first());
    lemma_segments_concat(Seq::<char>::empty(), s.drop_first());
}

} // verus!
