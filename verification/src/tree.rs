//! Servers as listed, and the tree of directories that holds them.
//!
//! Each server is a path of names below the servers directory.  The tree
//! holds a directory node for every name on the way to a server and a leaf
//! for the server itself.  A server cannot sit inside another server, and two
//! servers cannot share a path.
use vstd::prelude::*;
use crate::collections::{distinct_keys, find_key, key_map, lemma_key_map_at, lemma_key_map_push, lemma_key_map_update};
use crate::config::Config;
use crate::error::{Error, InvalidServersDirectoryError};
use crate::paths::{path_components, render_path, views_of, ServerPath};

verus! {

/// When a server was last used.
#[derive(Debug, Clone, PartialEq, Eq)]
pub enum LastUsed {
    Never,
    Unknown,
    /// The time since the last use, spelled out.
    Time(String),
}

/// Whether a server's session lives.
#[derive(Debug, Clone, Copy, PartialEq, Eq)]
pub enum ServerState {
    Active,
    Dead,
}

/// What a listing says about a server besides its name.
#[derive(Debug, Clone, PartialEq, Eq)]
pub struct ServerTags {
    pub last_used: Option<LastUsed>,
    pub state: Option<ServerState>,
}

impl ServerTags {
    /// No tags.
    pub fn new() -> (res: ServerTags)
        ensures
            res.last_used is None,
            res.state is None,
    {
        ServerTags { last_used: None, state: None }
    }
}

/// A server found in the servers directory, by its path.
#[derive(Debug)]
pub struct AbsoluteServerObject {
    pub path: ServerPath,
    pub tags: ServerTags,
}

impl AbsoluteServerObject {
    /// A server at `path`, without tags.
    pub fn new(path: ServerPath) -> (res: AbsoluteServerObject)
        ensures
            res.path == path,
            res.tags.last_used is None,
            res.tags.state is None,
    {
        AbsoluteServerObject { path, tags: ServerTags::new() }
    }

    /// Records when the server was last used.
    pub fn set_last_used(&mut self, last_used: LastUsed)
        ensures
            final(self).path == old(self).path,
            final(self).tags.state == old(self).tags.state,
            final(self).tags.last_used == Some(last_used),
    {
        self.tags.last_used = Some(last_used);
    }

    /// Records the state of the server's session.
    pub fn set_state(&mut self, state: ServerState)
        ensures
            final(self).path == old(self).path,
            final(self).tags.last_used == old(self).tags.last_used,
            final(self).tags.state == Some(state),
    {
        self.tags.state = Some(state);
    }
}

/// A server by its name only.
#[derive(Debug, PartialEq, Eq)]
pub struct NamedServerObject {
    pub name: String,
    pub tags: ServerTags,
}

impl NamedServerObject {
    /// The server named after the last component of its path; fails for a
    /// path without components.
    pub fn try_from(value: AbsoluteServerObject) -> (res: Result<NamedServerObject, ()>)
        ensures
            res is Ok <==> value.path@.absolute || value.path@.parts.len() > 0,
            res matches Ok(o) ==> o.tags == value.tags && o.name@ == crate::paths::path_components(value.path@).last(),
    {
        let comps = value.path.components();
        assert(views_of(comps@).len() == comps@.len());
        if comps.len() == 0 {
            return Err(());
        }
        let last = comps.len() - 1;
        let name = comps[last].clone();
        proof {
            assert(views_of(comps@)[last as int] == comps@[last as int]@);
        }
        Ok(NamedServerObject { name, tags: value.tags })
    }
}

/// A server below a directory: the names of the directories on its way,
/// then the server.
#[derive(Debug)]
pub struct RelativeServerObject {
    pub relative_path: Vec<String>,
    pub object: NamedServerObject,
}

/// One step down the way of a server.
#[derive(Debug)]
pub enum ServerUnwrapResult {
    /// The next directory, and the rest of the way.
    Relative(String, RelativeServerObject),
    /// The server itself.
    Finished(NamedServerObject),
}

/// The whole path of a server below a directory: its directories, then its
/// name.
pub open spec fn full_path(obj: RelativeServerObject) -> Seq<Seq<char>> {
    views_of(obj.relative_path@).push(obj.object.name@)
}

impl RelativeServerObject {
    /// Takes the first directory off the way, or yields the server when no
    /// directory is left.
    pub fn unwrap_layer(self) -> (res: Result<ServerUnwrapResult, InvalidServersDirectoryError>)
        ensures
            res is Ok,
            res matches Ok(ServerUnwrapResult::Finished(o)) ==> self.relative_path@.len() == 0 && o == self.object,
            res matches Ok(ServerUnwrapResult::Relative(dir, rest)) ==> {
                &&& self.relative_path@.len() > 0
                &&& dir@ == self.relative_path@[0]@
                &&& views_of(rest.relative_path@) == views_of(self.relative_path@).drop_first()
                &&& rest.object == self.object
            },
            (res matches Ok(ServerUnwrapResult::Finished(_))) <==> self.relative_path@.len() == 0,
    {
        let mut path = self.relative_path;
        if path.len() == 0 {
            return Ok(ServerUnwrapResult::Finished(self.object));
        }
        let ghost before = path@;
        let first = path.remove(0);
        proof {
            assert(path@ =~= before.drop_first());
            assert(views_of(path@) =~= views_of(before).drop_first());
        }
        Ok(ServerUnwrapResult::Relative(first, RelativeServerObject { relative_path: path, object: self.object }))
    }
}

/// A directory of servers.
#[derive(Debug)]
pub struct ServerDirectory {
    pub name: String,
    pub children: Vec<(String, ServerTreeNode)>,
    pub descendant_dir_count: usize,
    pub descendant_server_count: usize,
}

/// A node of the server tree.
#[derive(Debug)]
pub enum ServerTreeNode {
    Child(NamedServerObject),
    Directory(ServerDirectory),
}

/// The name under which a node sits in its directory.
pub open spec fn node_name(n: ServerTreeNode) -> Seq<char> {
    match n {
        ServerTreeNode::Child(o) => o.name@,
        ServerTreeNode::Directory(d) => d.name@,
    }
}

/// A well-formed directory: children keyed by their own names, each name
/// once, no empty subdirectory, and descendant counts that do not grow
/// going down.
pub open spec fn dir_wf(d: ServerDirectory) -> bool {
    dir_wf_within(d, d.descendant_dir_count as int, d.descendant_server_count as int)
}

/// A well-formed entry of a directory whose counts are `dirs` and
/// `servers`.
pub open spec fn entry_wf(e: (String, ServerTreeNode), dirs: int, servers: int) -> bool
    decreases e, 0int,
{
    &&& e.0@ == node_name(e.1)
    &&& match e.1 {
        ServerTreeNode::Child(_) => true,
        ServerTreeNode::Directory(c) => {
            &&& c.children@.len() > 0
            &&& c.descendant_dir_count <= dirs
            &&& c.descendant_server_count <= servers
            &&& dir_wf_within(c, c.descendant_dir_count as int, c.descendant_server_count as int)
        },
    }
}

/// A well-formed directory, its children's counts bounded by `dirs` and
/// `servers`.
pub open spec fn dir_wf_within(d: ServerDirectory, dirs: int, servers: int) -> bool
    decreases d, 1int,
{
    &&& distinct_keys(d.children@)
    &&& forall|i: int| 0 <= i < d.children@.len() ==> entry_wf(#[trigger] d.children@[i], dirs, servers)
}

/// Raising the bounds keeps a directory well formed.
pub proof fn lemma_wf_within_mono(d: ServerDirectory, dirs: int, servers: int, dirs2: int, servers2: int)
    requires
        dir_wf_within(d, dirs, servers),
        dirs <= dirs2,
        servers <= servers2,
    ensures
        dir_wf_within(d, dirs2, servers2),
{
    assert forall|i: int| 0 <= i < d.children@.len() implies entry_wf(#[trigger] d.children@[i], dirs2, servers2) by {
        assert(entry_wf(d.children@[i], dirs, servers));
    }
}

/// The child of `d` named `k`.
pub open spec fn child_of(d: ServerDirectory, k: Seq<char>) -> Option<ServerTreeNode> {
    if key_map(d.children@).contains_key(k) {
        Some(key_map(d.children@)[k])
    } else {
        None
    }
}

/// The server at path `q` below directory `d`.
pub open spec fn dir_leaf(d: ServerDirectory, q: Seq<Seq<char>>) -> Option<NamedServerObject>
    decreases q.len(), 0int,
{
    if q.len() == 0 {
        None
    } else {
        match child_of(d, q[0]) {
            Some(c) => node_leaf(c, q.drop_first()),
            None => None,
        }
    }
}

/// The server at path `q` below node `n`.
pub open spec fn node_leaf(n: ServerTreeNode, q: Seq<Seq<char>>) -> Option<NamedServerObject>
    decreases q.len(), 1int,
{
    match n {
        ServerTreeNode::Child(o) => if q.len() == 0 { Some(o) } else { None },
        ServerTreeNode::Directory(c) => dir_leaf(c, q),
    }
}

/// Inserting a server at path `p` below `d` meets a server on the way or
/// an existing name at the end.
pub open spec fn insert_blocked(d: ServerDirectory, p: Seq<Seq<char>>) -> bool
    decreases p.len(),
{
    if p.len() <= 1 {
        p.len() == 0 || child_of(d, p[0]) is Some
    } else {
        match child_of(d, p[0]) {
            None => false,
            Some(ServerTreeNode::Child(_)) => true,
            Some(ServerTreeNode::Directory(c)) => insert_blocked(c, p.drop_first()),
        }
    }
}

/// The name reported when inserting at `p` below `d` is blocked: the name
/// at the depth where the insertion stops.
pub open spec fn blocking_name(d: ServerDirectory, p: Seq<Seq<char>>) -> Seq<char>
    decreases p.len(),
{
    if p.len() <= 1 {
        p[0]
    } else {
        match child_of(d, p[0]) {
            Some(ServerTreeNode::Directory(c)) => blocking_name(c, p.drop_first()),
            _ => p[0],
        }
    }
}

impl ServerDirectory {
    /// An empty directory.
    pub fn new(name: String) -> (res: ServerDirectory)
        ensures
            res.name == name,
            res.children@.len() == 0,
            res.descendant_dir_count == 0,
            res.descendant_server_count == 0,
            dir_wf(res),
    {
        ServerDirectory { name, children: Vec::new(), descendant_dir_count: 0, descendant_server_count: 0 }
    }

    /// Adds a server directly to this directory.
    pub fn add_object(&mut self, obj: NamedServerObject) -> (res: Result<(), InvalidServersDirectoryError>)
        requires
            dir_wf(*old(self)),
        ensures
            res is Err <==> child_of(*old(self), obj.name@) is Some,
            res is Err ==> *final(self) == *old(self),
            res matches Err(e) ==> e == InvalidServersDirectoryError::DuplicateServer(e->DuplicateServer_0)
                && e->DuplicateServer_0@ == obj.name@,
            res is Ok ==> {
                &&& dir_wf(*final(self))
                &&& final(self).name == old(self).name
                &&& final(self).descendant_dir_count == old(self).descendant_dir_count
                &&& final(self).descendant_server_count == old(self).descendant_server_count
                &&& final(self).children@.len() > 0
                &&& key_map(final(self).children@) == key_map(old(self).children@).insert(obj.name@, ServerTreeNode::Child(obj))
            },
    {
        match find_key(&self.children, obj.name.as_str()) {
            Some(i) => {
                let key = self.children[i].0.clone();
                proof {
                    lemma_key_map_at(self.children@, i as int);
                }
                Err(InvalidServersDirectoryError::DuplicateServer(key))
            },
            None => {
                let ghost prev = self.children@;
                let key = obj.name.clone();
                let entry = (key, ServerTreeNode::Child(obj));
                self.children.push(entry);
                proof {
                    lemma_key_map_push(prev, entry);
                    assert forall|i: int| 0 <= i < self.children@.len() implies
                        entry_wf(#[trigger] self.children@[i], self.descendant_dir_count as int, self.descendant_server_count as int) by {
                        if i < prev.len() {
                            assert(self.children@[i] == prev[i]);
                        }
                    }
                }
                Ok(())
            },
        }
    }
}


/// `new` holds the servers of `old` and, at path `p`, the server `o`.
pub open spec fn leaves_added(old: ServerDirectory, new: ServerDirectory, p: Seq<Seq<char>>, o: NamedServerObject) -> bool {
    forall|q: Seq<Seq<char>>| #[trigger] dir_leaf(new, q) == if q == p { Some(o) } else { dir_leaf(old, q) }
}

/// A directory without children holds no server.
pub proof fn lemma_empty_dir_leaf(d: ServerDirectory, q: Seq<Seq<char>>)
    requires
        d.children@.len() == 0,
    ensures
        dir_leaf(d, q) is None,
        q.len() >= 1 ==> !insert_blocked(d, q),
{
    if q.len() > 0 {
        assert(!key_map(d.children@).contains_key(q[0]));
    }
}

impl ServerDirectory {
    /// The name that blocks putting server `name` below the directories
    /// `dirs[from..]`, if something does.
    fn blocking(&self, dirs: &Vec<String>, from: usize, name: &String) -> (res: Option<String>)
        requires
            from <= dirs@.len(),
            dir_wf(*self),
        ensures
            res is Some <==> insert_blocked(*self, views_of(dirs@).subrange(from as int, dirs@.len() as int).push(name@)),
            res matches Some(n) ==> n@ == blocking_name(*self, views_of(dirs@).subrange(from as int, dirs@.len() as int).push(name@)),
        decreases dirs@.len() - from,
    {
        let ghost p = views_of(dirs@).subrange(from as int, dirs@.len() as int).push(name@);
        if from == dirs.len() {
            assert(p =~= seq![name@]);
            match find_key(&self.children, name.as_str()) {
                Some(i) => {
                    proof {
                        lemma_key_map_at(self.children@, i as int);
                    }
                    Some(self.children[i].0.clone())
                },
                None => None,
            }
        } else {
            assert(p[0] == dirs@[from as int]@);
            assert(p.len() >= 2);
            match find_key(&self.children, dirs[from].as_str()) {
                None => None,
                Some(i) => {
                    proof {
                        lemma_key_map_at(self.children@, i as int);
                        assert(entry_wf(self.children@[i as int], self.descendant_dir_count as int, self.descendant_server_count as int));
                    }
                    match &self.children[i].1 {
                        ServerTreeNode::Child(c) => Some(c.name.clone()),
                        ServerTreeNode::Directory(sub) => {
                            assert(p.drop_first() =~= views_of(dirs@).subrange(from + 1, dirs@.len() as int).push(name@));
                            sub.blocking(dirs, from + 1, name)
                        },
                    }
                },
            }
        }
    }

    /// Puts a server whose way is not blocked into this directory, and
    /// counts it.
    fn insert_unblocked(&mut self, obj: RelativeServerObject)
        requires
            dir_wf(*old(self)),
            old(self).descendant_server_count < usize::MAX,
            old(self).descendant_dir_count < usize::MAX,
            !insert_blocked(*old(self), full_path(obj)),
        ensures
            dir_wf(*final(self)),
            final(self).name == old(self).name,
            final(self).descendant_server_count == old(self).descendant_server_count + 1,
            final(self).descendant_dir_count == old(self).descendant_dir_count
                + if obj.relative_path@.len() > 0 { 1int } else { 0int },
            final(self).children@.len() > 0,
            leaves_added(*old(self), *final(self), full_path(obj), obj.object),
        decreases obj.relative_path@.len(), 0int,
    {
        let ghost p = full_path(obj);
        let ghost o = obj.object;
        let ghost rp = views_of(obj.relative_path@);
        let ghost old_self = *self;
        match obj.unwrap_layer() {
            Ok(ServerUnwrapResult::Finished(named)) => {
                assert(p =~= seq![named.name@]);
                let r = self.add_object(named);
                match r {
                    Ok(()) => {},
                    Err(_) => {
                        assert(false);
                    },
                }
                self.descendant_server_count = self.descendant_server_count + 1;
                proof {
                    lemma_wf_within_mono(*self, old_self.descendant_dir_count as int, old_self.descendant_server_count as int,
                        self.descendant_dir_count as int, self.descendant_server_count as int);
                    assert forall|q: Seq<Seq<char>>| #[trigger] dir_leaf(*self, q) == if q == p { Some(o) } else { dir_leaf(old_self, q) } by {
                        if q.len() > 0 {
                            if q[0] == o.name@ {
                                assert(child_of(*self, q[0]) == Some(ServerTreeNode::Child(o)));
                                assert(child_of(old_self, q[0]) is None);
                                if q.len() == 1 {
                                    assert(q =~= p);
                                } else {
                                    assert(q != p);
                                }
                            } else {
                                assert(child_of(*self, q[0]) == child_of(old_self, q[0]));
                                assert(q != p);
                            }
                        }
                    }
                }
            },
            Ok(ServerUnwrapResult::Relative(dir, rest)) => {
                proof {
                    assert(p =~= seq![dir@] + full_path(rest));
                }
                self.nest_unblocked(dir, rest);
                let ghost mid = *self;
                self.descendant_dir_count = self.descendant_dir_count + 1;
                self.descendant_server_count = self.descendant_server_count + 1;
                proof {
                    assert forall|q: Seq<Seq<char>>| #[trigger] dir_leaf(*self, q) == if q == p { Some(o) } else { dir_leaf(old_self, q) } by {
                        if q.len() > 0 {
                            assert(child_of(*self, q[0]) == child_of(mid, q[0]));
                        }
                        assert(dir_leaf(*self, q) == dir_leaf(mid, q));
                    }
                }
            },
            Err(_) => {
                assert(false);
            },
        }
    }

    /// Puts a server whose way is not blocked below the subdirectory
    /// `directory`, making it when missing; the counts are left to the
    /// caller.
    fn nest_unblocked(&mut self, directory: String, obj: RelativeServerObject)
        requires
            dir_wf(*old(self)),
            old(self).descendant_server_count < usize::MAX,
            old(self).descendant_dir_count < usize::MAX,
            !insert_blocked(*old(self), seq![directory@] + full_path(obj)),
        ensures
            dir_wf_within(*final(self), old(self).descendant_dir_count + 1, old(self).descendant_server_count + 1),
            final(self).name == old(self).name,
            final(self).descendant_server_count == old(self).descendant_server_count,
            final(self).descendant_dir_count == old(self).descendant_dir_count,
            final(self).children@.len() > 0,
            leaves_added(*old(self), *final(self), seq![directory@] + full_path(obj), obj.object),
        decreases obj.relative_path@.len(), 1int,
    {
        let ghost p = seq![directory@] + full_path(obj);
        let ghost o = obj.object;
        let ghost old_self = *self;
        let ghost old_children = self.children@;
        proof {
            assert(p[0] == directory@);
            assert(p.drop_first() =~= full_path(obj));
            assert(p.len() >= 2);
        }
        match find_key(&self.children, directory.as_str()) {
            Some(i) => {
                proof {
                    lemma_key_map_at(old_children, i as int);
                    assert(entry_wf(old_children[i as int], self.descendant_dir_count as int, self.descendant_server_count as int));
                }
                let (key, node) = self.children.remove(i);
                match node {
                    ServerTreeNode::Directory(mut sub) => {
                        let ghost old_sub = sub;
                        assert(child_of(old_self, directory@) == Some(ServerTreeNode::Directory(old_sub)));
                        sub.insert_unblocked(obj);
                        let entry = (key, ServerTreeNode::Directory(sub));
                        self.children.insert(i, entry);
                        proof {
                            assert(self.children@ =~= old_children.update(i as int, entry));
                            lemma_key_map_update(old_children, i as int, entry);
                            assert forall|j: int| 0 <= j < self.children@.len() implies
                                entry_wf(#[trigger] self.children@[j], old_self.descendant_dir_count + 1, old_self.descendant_server_count + 1) by {
                                if j != i {
                                    assert(self.children@[j] == old_children[j]);
                                    assert(entry_wf(old_children[j], old_self.descendant_dir_count as int, old_self.descendant_server_count as int));
                                    if let ServerTreeNode::Directory(c) = old_children[j].1 {
                                    }
                                }
                            }
                            assert forall|q: Seq<Seq<char>>| #[trigger] dir_leaf(*self, q) == if q == p { Some(o) } else { dir_leaf(old_self, q) } by {
                                if q.len() > 0 {
                                    if q[0] == directory@ {
                                        assert(child_of(*self, q[0]) == Some(ServerTreeNode::Directory(sub)));
                                        assert(dir_leaf(*self, q) == dir_leaf(sub, q.drop_first()));
                                        assert(dir_leaf(old_self, q) == dir_leaf(old_sub, q.drop_first()));
                                        if q.drop_first() == full_path(obj) {
                                            assert(q =~= p);
                                        } else {
                                            assert(q != p);
                                        }
                                    } else {
                                        assert(child_of(*self, q[0]) == child_of(old_self, q[0]));
                                        assert(q != p);
                                    }
                                }
                            }
                        }
                    },
                    ServerTreeNode::Child(c) => {
                        assert(false);
                        self.children.insert(i, (key, ServerTreeNode::Child(c)));
                    },
                }
            },
            None => {
                let mut sub = ServerDirectory::new(directory.clone());
                let ghost empty = sub;
                proof {
                    lemma_empty_dir_leaf(empty, full_path(obj));
                }
                sub.insert_unblocked(obj);
                let entry = (directory, ServerTreeNode::Directory(sub));
                self.children.push(entry);
                proof {
                    lemma_key_map_push(old_children, entry);
                    assert forall|j: int| 0 <= j < self.children@.len() implies
                        entry_wf(#[trigger] self.children@[j], old_self.descendant_dir_count + 1, old_self.descendant_server_count + 1) by {
                        if j < old_children.len() {
                            assert(self.children@[j] == old_children[j]);
                            assert(entry_wf(old_children[j], old_self.descendant_dir_count as int, old_self.descendant_server_count as int));
                            if let ServerTreeNode::Directory(c) = old_children[j].1 {
                            }
                        }
                    }
                    assert forall|q: Seq<Seq<char>>| #[trigger] dir_leaf(*self, q) == if q == p { Some(o) } else { dir_leaf(old_self, q) } by {
                        if q.len() > 0 {
                            if q[0] == entry.0@ {
                                assert(child_of(*self, q[0]) == Some(ServerTreeNode::Directory(sub)));
                                assert(child_of(old_self, q[0]) is None);
                                assert(dir_leaf(*self, q) == dir_leaf(sub, q.drop_first()));
                                lemma_empty_dir_leaf(empty, q.drop_first());
                                if q.drop_first() == full_path(obj) {
                                    assert(q =~= p);
                                } else {
                                    assert(q != p);
                                }
                            } else {
                                assert(child_of(*self, q[0]) == child_of(old_self, q[0]));
                                assert(q != p);
                            }
                        }
                    }
                }
            },
        }
    }
}


/// `a` is a prefix of `b`, as paths of names.
pub open spec fn path_prefix(a: Seq<Seq<char>>, b: Seq<Seq<char>>) -> bool {
    a.len() <= b.len() && b.subrange(0, a.len() as int) == a
}

/// One of the two paths lies on the way of the other (or they are equal).
pub open spec fn paths_comparable(a: Seq<Seq<char>>, b: Seq<Seq<char>>) -> bool {
    path_prefix(a, b) || path_prefix(b, a)
}

/// Some server below `d` lies on the way of `p`, or `p` on the way of it.
pub open spec fn has_comparable_leaf(d: ServerDirectory, p: Seq<Seq<char>>) -> bool {
    exists|q: Seq<Seq<char>>| #[trigger] dir_leaf(d, q) is Some && paths_comparable(q, p)
}

/// A well-formed directory with children holds a server.
pub proof fn lemma_nonempty_dir_has_leaf(d: ServerDirectory)
    requires
        dir_wf_within(d, d.descendant_dir_count as int, d.descendant_server_count as int),
        d.children@.len() > 0,
    ensures
        exists|q: Seq<Seq<char>>| #[trigger] dir_leaf(d, q) is Some,
    decreases d,
{
    let e = d.children@[0];
    assert(entry_wf(e, d.descendant_dir_count as int, d.descendant_server_count as int));
    lemma_key_map_at(d.children@, 0);
    assert(child_of(d, e.0@) == Some(e.1));
    match e.1 {
        ServerTreeNode::Child(o) => {
            let q = seq![e.0@];
            assert(q.drop_first() =~= Seq::<Seq<char>>::empty());
            assert(dir_leaf(d, q) is Some);
        },
        ServerTreeNode::Directory(c) => {
            assert(decreases_to!(d => d.children));
            assert(decreases_to!(d.children => d.children@));
            assert(decreases_to!(d.children@ => d.children@[0]));
            lemma_nonempty_dir_has_leaf(c);
            let q2 = choose|q2: Seq<Seq<char>>| #[trigger] dir_leaf(c, q2) is Some;
            let q = seq![e.0@] + q2;
            assert(q.drop_first() =~= q2);
            assert(q[0] == e.0@);
            assert(dir_leaf(d, q) is Some);
        },
    }
}

/// Inserting at `p` is blocked exactly when a server below `d` lies on the
/// way of `p`, or `p` on the way of it.
pub proof fn lemma_blocked_iff_comparable(d: ServerDirectory, p: Seq<Seq<char>>)
    requires
        dir_wf(d),
        p.len() >= 1,
    ensures
        insert_blocked(d, p) <==> has_comparable_leaf(d, p),
    decreases p.len(),
{
    let k = p[0];
    match child_of(d, k) {
        None => {
            assert(!insert_blocked(d, p));
            assert forall|q: Seq<Seq<char>>| #[trigger] dir_leaf(d, q) is Some implies !paths_comparable(q, p) by {
                if q.len() > 0 && paths_comparable(q, p) {
                    assert(q[0] == p[0]) by {
                        if path_prefix(q, p) {
                            assert(p.subrange(0, q.len() as int)[0] == p[0]);
                        } else {
                            assert(q.subrange(0, p.len() as int)[0] == q[0]);
                        }
                    }
                }
            }
        },
        Some(c) => {
            let i = choose|i: int| 0 <= i < d.children@.len() && d.children@[i].0@ == k;
            lemma_key_map_at(d.children@, i);
            assert(entry_wf(d.children@[i], d.descendant_dir_count as int, d.descendant_server_count as int));
            assert(c == d.children@[i].1);
            match c {
                ServerTreeNode::Child(o) => {
                    let q = seq![k];
                    assert(q.drop_first() =~= Seq::<Seq<char>>::empty());
                    assert(dir_leaf(d, q) is Some);
                    assert(p.subrange(0, 1) =~= q);
                    assert(paths_comparable(q, p));
                    assert(insert_blocked(d, p));
                },
                ServerTreeNode::Directory(sub) => {
                    if p.len() == 1 {
                        lemma_nonempty_dir_has_leaf(sub);
                        let q2 = choose|q2: Seq<Seq<char>>| #[trigger] dir_leaf(sub, q2) is Some;
                        let q = seq![k] + q2;
                        assert(q.drop_first() =~= q2);
                        assert(dir_leaf(d, q) is Some);
                        assert(q.subrange(0, 1) =~= p);
                        assert(paths_comparable(q, p));
                        assert(insert_blocked(d, p));
                    } else {
                        let p2 = p.drop_first();
                        lemma_blocked_iff_comparable(sub, p2);
                        if has_comparable_leaf(sub, p2) {
                            let q2 = choose|q2: Seq<Seq<char>>| #[trigger] dir_leaf(sub, q2) is Some && paths_comparable(q2, p2);
                            let q = seq![k] + q2;
                            assert(q.drop_first() =~= q2);
                            assert(dir_leaf(d, q) is Some);
                            assert(p =~= seq![k] + p2);
                            if path_prefix(q2, p2) {
                                assert(p.subrange(0, q.len() as int) =~= seq![k] + p2.subrange(0, q2.len() as int));
                            } else {
                                assert(q.subrange(0, p.len() as int) =~= seq![k] + q2.subrange(0, p2.len() as int));
                            }
                            assert(paths_comparable(q, p));
                        }
                        if has_comparable_leaf(d, p) {
                            let q = choose|q: Seq<Seq<char>>| #[trigger] dir_leaf(d, q) is Some && paths_comparable(q, p);
                            assert(q.len() > 0);
                            assert(q[0] == p[0]) by {
                                if path_prefix(q, p) {
                                    assert(p.subrange(0, q.len() as int)[0] == p[0]);
                                } else {
                                    assert(q.subrange(0, p.len() as int)[0] == q[0]);
                                }
                            }
                            let q2 = q.drop_first();
                            assert(dir_leaf(sub, q2) is Some);
                            assert(p =~= seq![k] + p2);
                            assert(q =~= seq![k] + q2);
                            if path_prefix(q, p) {
                                assert(p2.subrange(0, q2.len() as int) =~= p.subrange(0, q.len() as int).drop_first());
                            } else {
                                assert(q2.subrange(0, p2.len() as int) =~= q.subrange(0, p.len() as int).drop_first());
                            }
                            assert(paths_comparable(q2, p2));
                        }
                    }
                },
            }
        },
    }
}


impl ServerDirectory {
    /// Puts a server below this directory, making the directories on its
    /// way; fails, changing nothing, when a server lies on the way or the
    /// name is taken.
    pub fn insert(&mut self, obj: RelativeServerObject) -> (res: Result<(), InvalidServersDirectoryError>)
        requires
            dir_wf(*old(self)),
            old(self).descendant_server_count < usize::MAX,
            old(self).descendant_dir_count < usize::MAX,
        ensures
            res is Err <==> insert_blocked(*old(self), full_path(obj)),
            res is Err ==> *final(self) == *old(self),
            res matches Err(e) ==> e == InvalidServersDirectoryError::DuplicateServer(e->DuplicateServer_0)
                && e->DuplicateServer_0@ == blocking_name(*old(self), full_path(obj)),
            res is Ok ==> {
                &&& dir_wf(*final(self))
                &&& final(self).name == old(self).name
                &&& final(self).descendant_server_count == old(self).descendant_server_count + 1
                &&& final(self).descendant_dir_count == old(self).descendant_dir_count
                    + if obj.relative_path@.len() > 0 { 1int } else { 0int }
                &&& final(self).children@.len() > 0
                &&& leaves_added(*old(self), *final(self), full_path(obj), obj.object)
            },
    {
        assert(views_of(obj.relative_path@).subrange(0, obj.relative_path@.len() as int) =~= views_of(obj.relative_path@));
        match self.blocking(&obj.relative_path, 0, &obj.object.name) {
            Some(n) => Err(InvalidServersDirectoryError::DuplicateServer(n)),
            None => {
                self.insert_unblocked(obj);
                Ok(())
            },
        }
    }

    /// Puts a server below the subdirectory `directory`, making it when
    /// missing; fails, changing nothing, when `directory` is a server or the
    /// way below it is blocked.  The counts of this directory are left to
    /// the caller.
    pub fn nest_object(&mut self, directory: String, obj: RelativeServerObject) -> (res: Result<(), InvalidServersDirectoryError>)
        requires
            dir_wf(*old(self)),
            old(self).descendant_server_count < usize::MAX,
            old(self).descendant_dir_count < usize::MAX,
        ensures
            res is Err <==> insert_blocked(*old(self), seq![directory@] + full_path(obj)),
            res is Err ==> *final(self) == *old(self),
            res matches Err(e) ==> e == InvalidServersDirectoryError::DuplicateServer(e->DuplicateServer_0)
                && e->DuplicateServer_0@ == blocking_name(*old(self), seq![directory@] + full_path(obj)),
            res is Ok ==> {
                &&& dir_wf_within(*final(self), old(self).descendant_dir_count + 1, old(self).descendant_server_count + 1)
                &&& final(self).name == old(self).name
                &&& final(self).descendant_server_count == old(self).descendant_server_count
                &&& final(self).descendant_dir_count == old(self).descendant_dir_count
                &&& leaves_added(*old(self), *final(self), seq![directory@] + full_path(obj), obj.object)
            },
    {
        let ghost p = seq![directory@] + full_path(obj);
        proof {
            assert(p[0] == directory@);
            assert(p.drop_first() =~= full_path(obj));
            assert(views_of(obj.relative_path@).subrange(0, obj.relative_path@.len() as int) =~= views_of(obj.relative_path@));
        }
        match find_key(&self.children, directory.as_str()) {
            Some(i) => {
                proof {
                    lemma_key_map_at(self.children@, i as int);
                    assert(entry_wf(self.children@[i as int], self.descendant_dir_count as int, self.descendant_server_count as int));
                }
                let blocked = match &self.children[i].1 {
                    ServerTreeNode::Child(c) => Some(c.name.clone()),
                    ServerTreeNode::Directory(sub) => sub.blocking(&obj.relative_path, 0, &obj.object.name),
                };
                match blocked {
                    Some(n) => {
                        return Err(InvalidServersDirectoryError::DuplicateServer(n));
                    },
                    None => {},
                }
            },
            None => {},
        }
        self.nest_unblocked(directory, obj);
        Ok(())
    }
}

/// The paths of the servers, as the components `Path::iter` yields.
pub open spec fn flat_paths(objs: Seq<AbsoluteServerObject>) -> Seq<Seq<Seq<char>>> {
    Seq::new(objs.len(), |i: int| path_components(objs[i].path@))
}

/// The `j`-th server has no path, or lies on the way of an earlier one, or
/// an earlier one on its way.
pub open spec fn flat_conflict(ps: Seq<Seq<Seq<char>>>, j: int) -> bool {
    ps[j].len() == 0 || exists|i: int| 0 <= i < j && paths_comparable(ps[i], ps[j])
}

/// None of the first `n` servers conflicts.
pub open spec fn conflict_free_upto(ps: Seq<Seq<Seq<char>>>, n: int) -> bool {
    forall|j: int| 0 <= j < n ==> !flat_conflict(ps, j)
}

/// `j` is the first server that conflicts.
pub open spec fn first_conflict(ps: Seq<Seq<Seq<char>>>, j: int) -> bool {
    0 <= j < ps.len() && flat_conflict(ps, j) && conflict_free_upto(ps, j)
}

/// How many of the first `n` paths have a directory before the server.
pub open spec fn nested_count(ps: Seq<Seq<Seq<char>>>, n: int) -> int
    decreases n,
{
    if n <= 0 {
        0
    } else {
        nested_count(ps, n - 1) + if ps[n - 1].len() >= 2 { 1int } else { 0int }
    }
}

/// Directory `d` holds exactly the first `n` servers of `objs`, each under
/// its path, named after its last component and with its tags.
pub open spec fn holds_exactly(d: ServerDirectory, objs: Seq<AbsoluteServerObject>, n: int) -> bool {
    let ps = flat_paths(objs);
    &&& forall|k: int| 0 <= k < n ==> ((#[trigger] dir_leaf(d, ps[k])) matches Some(l)
        && l.name@ == ps[k].last() && l.tags == objs[k].tags)
    &&& forall|q: Seq<Seq<char>>| (#[trigger] dir_leaf(d, q)) is Some ==> exists|k: int| 0 <= k < n && ps[k] == q
}

/// The first `n` strings.
fn take_strings(v: &Vec<String>, n: usize) -> (res: Vec<String>)
    requires
        n <= v.len(),
    ensures
        views_of(res@) == views_of(v@).take(n as int),
{
    let mut res: Vec<String> = Vec::new();
    let mut i: usize = 0;
    while i < n
        invariant
            i <= n <= v.len(),
            views_of(res@) == views_of(v@).take(i as int),
        decreases n - i,
    {
        let ghost prev = res@;
        let item = v[i].clone();
        res.push(item);
        proof {
            crate::paths::lemma_views_push(prev, item);
        }
        i = i + 1;
        assert(views_of(res@) =~= views_of(v@).take(i as int));
    }
    res
}

impl ServerTreeNode {
    /// Builds the tree of the servers, under a root directory named after
    /// the expanded servers directory; fails as [`Self::from_flat_objects`]
    /// does, or when the servers directory cannot be expanded.
    pub fn try_from_flat_objects(objects: Vec<AbsoluteServerObject>, config: &Config) -> (res: Result<ServerTreeNode, Error>)
        ensures
            config.servers_directory.expansion() is None ==> (res matches Err(e) && e == config.servers_directory.lookup_error()),
            config.servers_directory.expansion() is Some ==> {
                &&& res is Ok <==> conflict_free_upto(flat_paths(objects@), objects@.len() as int)
                &&& res matches Ok(node) ==> node matches ServerTreeNode::Directory(root) && {
                    &&& root.name@ == config.servers_directory.expansion()->0
                    &&& dir_wf(root)
                    &&& holds_exactly(root, objects@, objects@.len() as int)
                    &&& root.descendant_server_count == objects@.len()
                    &&& root.descendant_dir_count == nested_count(flat_paths(objects@), objects@.len() as int)
                }
                &&& res matches Err(e) ==> e matches Error::InvalidServersDirectory(inner)
                    && exists|j: int| #[trigger] first_conflict(flat_paths(objects@), j) && {
                        &&& flat_paths(objects@)[j].len() == 0 ==> inner == InvalidServersDirectoryError::MissingServerHead(inner->MissingServerHead_0)
                            && inner->MissingServerHead_0@ == render_path(objects@[j].path@)
                        &&& flat_paths(objects@)[j].len() > 0 ==> inner is DuplicateServer
                    }
            },
    {
        let root_name = config.servers_directory.expand()?;
        match Self::from_flat_objects(objects, root_name) {
            Ok(node) => Ok(node),
            Err(e) => Err(Error::InvalidServersDirectory(e)),
        }
    }

    /// Builds the tree of the servers, under a root directory named
    /// `root_name`; fails at the first server without a path, or that lies on
    /// the way of an earlier server or has one on its way.
    pub fn from_flat_objects(objects: Vec<AbsoluteServerObject>, root_name: String) -> (res: Result<ServerTreeNode, InvalidServersDirectoryError>)
        ensures
            res is Ok <==> conflict_free_upto(flat_paths(objects@), objects@.len() as int),
            res matches Ok(node) ==> node matches ServerTreeNode::Directory(root) && {
                &&& root.name == root_name
                &&& dir_wf(root)
                &&& holds_exactly(root, objects@, objects@.len() as int)
                &&& root.descendant_server_count == objects@.len()
                &&& root.descendant_dir_count == nested_count(flat_paths(objects@), objects@.len() as int)
            },
            res matches Err(e) ==> exists|j: int| #[trigger] first_conflict(flat_paths(objects@), j) && {
                &&& flat_paths(objects@)[j].len() == 0 ==> e == InvalidServersDirectoryError::MissingServerHead(e->MissingServerHead_0)
                    && e->MissingServerHead_0@ == render_path(objects@[j].path@)
                &&& flat_paths(objects@)[j].len() > 0 ==> e is DuplicateServer
            },
    {
        let ghost all = objects@;
        let ghost ps = flat_paths(all);
        let mut rest = objects;
        let mut root = ServerDirectory::new(root_name);
        let mut j: usize = 0;
        let total = rest.len();
        proof {
            assert forall|q: Seq<Seq<char>>| (#[trigger] dir_leaf(root, q)) is None by {
                lemma_empty_dir_leaf(root, q);
            }
        }
        while rest.len() > 0
            invariant
                j + rest@.len() == total,
                total == all.len(),
                all == objects@,
                rest@ == all.subrange(j as int, all.len() as int),
                ps == flat_paths(all),
                root.name == root_name,
                dir_wf(root),
                holds_exactly(root, all, j as int),
                conflict_free_upto(ps, j as int),
                root.descendant_server_count == j,
                root.descendant_dir_count == nested_count(ps, j as int),
                nested_count(ps, j as int) <= j,
            decreases rest@.len(),
        {
            let obj = rest.remove(0);
            assert(obj == all[j as int]);
            let comps = obj.path.components();
            assert(views_of(comps@) == ps[j as int]);
            if comps.len() == 0 {
                proof {
                    assert(views_of(comps@).len() == comps@.len());
                    assert(ps[j as int].len() == 0);
                    assert(flat_conflict(ps, j as int));
                    assert(first_conflict(ps, j as int));
                    assert(!conflict_free_upto(ps, all.len() as int));
                }
                let shown = obj.path.render();
                assert(shown@ == render_path(all[j as int].path@));
                assert(!conflict_free_upto(flat_paths(all), all.len() as int));
                assert(first_conflict(flat_paths(all), j as int));
                return Err(InvalidServersDirectoryError::MissingServerHead(shown));
            }
            let n = comps.len();
            let name = comps[n - 1].clone();
            let rel = take_strings(&comps, n - 1);
            let robj = RelativeServerObject { relative_path: rel, object: NamedServerObject { name, tags: obj.tags } };
            let ghost named = robj.object;
            proof {
                assert(full_path(robj) =~= ps[j as int]);
                lemma_blocked_iff_comparable(root, ps[j as int]);
                if has_comparable_leaf(root, ps[j as int]) {
                    let q = choose|q: Seq<Seq<char>>| #[trigger] dir_leaf(root, q) is Some && paths_comparable(q, ps[j as int]);
                    let k = choose|k: int| 0 <= k < j && ps[k] == q;
                    assert(paths_comparable(ps[k], ps[j as int]));
                    assert(flat_conflict(ps, j as int));
                } else {
                    assert forall|i: int| 0 <= i < j implies !paths_comparable(ps[i], ps[j as int]) by {
                        assert(dir_leaf(root, ps[i]) is Some);
                    }
                }
            }
            let ghost before = root;
            match root.insert(robj) {
                Err(e) => {
                    proof {
                        assert(first_conflict(ps, j as int));
                        assert(!conflict_free_upto(ps, all.len() as int));
                    }
                    return Err(e);
                },
                Ok(()) => {},
            }
            proof {
                let pj = ps[j as int];
                assert forall|k: int| 0 <= k < j + 1 implies ((#[trigger] dir_leaf(root, ps[k])) matches Some(l)
                    && l.name@ == ps[k].last() && l.tags == all[k].tags) by {
                    if k < j {
                        assert(ps[k] != pj) by {
                            if ps[k] == pj {
                                assert(ps[k].subrange(0, pj.len() as int) =~= pj);
                                assert(paths_comparable(ps[k], pj));
                            }
                        }
                        assert(dir_leaf(root, ps[k]) == dir_leaf(before, ps[k]));
                    } else {
                        assert(dir_leaf(root, pj) == Some(named));
                    }
                }
                assert forall|q: Seq<Seq<char>>| (#[trigger] dir_leaf(root, q)) is Some implies exists|k: int| 0 <= k < j + 1 && ps[k] == q by {
                    if q == pj {
                        assert(ps[j as int] == q);
                    } else {
                        assert(dir_leaf(before, q) is Some);
                    }
                }
                assert(conflict_free_upto(ps, j + 1));
                assert(nested_count(ps, j + 1) == nested_count(ps, j as int) + if pj.len() >= 2 { 1int } else { 0int });
                assert(rest@ =~= all.subrange(j + 1, all.len() as int));
            }
            j = j + 1;
        }
        proof {
            assert(j == all.len());
        }
        Ok(ServerTreeNode::Directory(root))
    }

    /// The name of the node.
    pub fn name(&self) -> (res: &String)
        ensures
            res@ == node_name(*self),
    {
        match self {
            ServerTreeNode::Child(o) => &o.name,
            ServerTreeNode::Directory(d) => &d.name,
        }
    }
}

} // verus!
