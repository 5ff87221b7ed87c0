//! How servers, their tags and the server tree print.
//!
//! Colour is an escape sequence around a value, used only when the output
//! is a terminal; the caller says whether it is.
use vstd::prelude::*;
use crate::paths::render_path;
use crate::text::{decimal, decimal_chars, push_all, push_str, string_of};
use crate::tree::{AbsoluteServerObject, LastUsed, NamedServerObject, ServerDirectory, ServerState, ServerTags, ServerTreeNode};

verus! {

/// `value` in the colour that `sequence` selects, when `color`.
pub open spec fn colorize(value: Seq<char>, sequence: Seq<char>, color: bool) -> Seq<char> {
    if color {
        "\x1b"@ + sequence + value + "\x1b[0m"@
    } else {
        value
    }
}

/// Pushes `value` in the colour that `sequence` selects, when `color`.
fn push_colorized(out: &mut Vec<char>, value: &str, sequence: &str, color: bool)
    ensures
        final(out)@ == old(out)@ + colorize(value@, sequence@, color),
{
    if color {
        push_str(out, "\x1b");
        push_str(out, sequence);
        push_str(out, value);
        push_str(out, "\x1b[0m");
    } else {
        push_str(out, value);
    }
    assert(final(out)@ =~= old(out)@ + colorize(value@, sequence@, color));
}

/// How a last use prints.
pub open spec fn last_used_text(l: LastUsed, color: bool) -> Seq<char> {
    match l {
        LastUsed::Never => "(Last used "@ + colorize("never"@, "[35;1m"@, color) + ")"@,
        LastUsed::Unknown => "(Last used unknown)"@,
        LastUsed::Time(t) => "(Last used "@ + colorize(t@, "[35;1m"@, color) + " ago)"@,
    }
}

/// How a session state prints.
pub open spec fn state_text(s: ServerState, color: bool) -> Seq<char> {
    match s {
        ServerState::Active => "("@ + colorize("active"@, "[32;1m"@, color) + ")"@,
        ServerState::Dead => "("@ + colorize("dead"@, "[31;1m"@, color) + ")"@,
    }
}

/// How tags print: a space and the state, then a space and the last use,
/// for those present.
pub open spec fn tags_text(t: ServerTags, color: bool) -> Seq<char> {
    (match t.state { Some(s) => " "@ + state_text(s, color), None => Seq::empty() })
        + (match t.last_used { Some(l) => " "@ + last_used_text(l, color), None => Seq::empty() })
}

impl LastUsed {
    /// How the last use prints.
    pub fn render(&self, color: bool) -> (res: String)
        ensures
            res@ == last_used_text(*self, color),
    {
        let mut out: Vec<char> = Vec::new();
        push_last_used(&mut out, self, color);
        string_of(&out)
    }
}

fn push_last_used(out: &mut Vec<char>, l: &LastUsed, color: bool)
    ensures
        final(out)@ == old(out)@ + last_used_text(*l, color),
{
    match l {
        LastUsed::Never => {
            push_str(out, "(Last used ");
            push_colorized(out, "never", "[35;1m", color);
            push_str(out, ")");
        },
        LastUsed::Unknown => {
            push_str(out, "(Last used unknown)");
        },
        LastUsed::Time(t) => {
            push_str(out, "(Last used ");
            push_colorized(out, t.as_str(), "[35;1m", color);
            push_str(out, " ago)");
        },
    }
    assert(final(out)@ =~= old(out)@ + last_used_text(*l, color));
}

fn push_state(out: &mut Vec<char>, s: ServerState, color: bool)
    ensures
        final(out)@ == old(out)@ + state_text(s, color),
{
    push_str(out, "(");
    match s {
        ServerState::Active => push_colorized(out, "active", "[32;1m", color),
        ServerState::Dead => push_colorized(out, "dead", "[31;1m", color),
    }
    push_str(out, ")");
    assert(final(out)@ =~= old(out)@ + state_text(s, color));
}

fn push_tags(out: &mut Vec<char>, t: &ServerTags, color: bool)
    ensures
        final(out)@ == old(out)@ + tags_text(*t, color),
{
    let ghost start = out@;
    if let Some(s) = t.state {
        push_str(out, " ");
        push_state(out, s, color);
    }
    let ghost mid = out@;
    assert(mid =~= start + (match t.state { Some(s) => " "@ + state_text(s, color), None => Seq::<char>::empty() }));
    if let Some(l) = &t.last_used {
        push_str(out, " ");
        push_last_used(out, l, color);
    }
    assert(out@ =~= start + tags_text(*t, color));
}

impl ServerState {
    /// How the state prints.
    pub fn render(&self, color: bool) -> (res: String)
        ensures
            res@ == state_text(*self, color),
    {
        let mut out: Vec<char> = Vec::new();
        push_state(&mut out, *self, color);
        string_of(&out)
    }
}

impl ServerTags {
    /// How the tags print.
    pub fn render(&self, color: bool) -> (res: String)
        ensures
            res@ == tags_text(*self, color),
    {
        let mut out: Vec<char> = Vec::new();
        push_tags(&mut out, self, color);
        assert(out@ =~= tags_text(*self, color));
        string_of(&out)
    }
}

impl AbsoluteServerObject {
    /// How the server prints: its path, then its tags.
    pub fn render(&self, color: bool) -> (res: String)
        ensures
            res@ == render_path(self.path@) + tags_text(self.tags, color),
    {
        let mut out: Vec<char> = Vec::new();
        push_str(&mut out, self.path.render().as_str());
        push_tags(&mut out, &self.tags, color);
        assert(out@ =~= render_path(self.path@) + tags_text(self.tags, color));
        string_of(&out)
    }
}

/// How a named server prints: its name, then its tags.
pub open spec fn named_text(o: NamedServerObject, color: bool) -> Seq<char> {
    o.name@ + tags_text(o.tags, color)
}

impl NamedServerObject {
    /// How the server prints: its name, then its tags.
    pub fn render(&self, color: bool) -> (res: String)
        ensures
            res@ == named_text(*self, color),
    {
        let mut out: Vec<char> = Vec::new();
        push_str(&mut out, self.name.as_str());
        push_tags(&mut out, &self.tags, color);
        assert(out@ =~= named_text(*self, color));
        string_of(&out)
    }
}

/// The position of a directory's last entry (0 when it has none).
pub open spec fn last_index(d: ServerDirectory) -> int {
    if d.children@.len() == 0 {
        0
    } else {
        d.children@.len() - 1
    }
}

/// How a node of the tree prints below the indentation `base`: a server on
/// its own line; a directory's coloured name on its line, then its entries.
pub open spec fn node_text(n: ServerTreeNode, base: Seq<char>, color: bool) -> Seq<char>
    decreases n, 1int, 0int,
{
    match n {
        ServerTreeNode::Child(o) => named_text(o, color) + "\n"@,
        ServerTreeNode::Directory(d) => colorize(d.name@, "[34;1m"@, color) + "\n"@ + entries_text(d, base, color, d.children@.len() as int),
    }
}

/// The first `k` entries of a directory, each on its branch: the last with
/// a corner and blank indentation below it, the others with a tee and a bar.
pub open spec fn entries_text(d: ServerDirectory, base: Seq<char>, color: bool, k: int) -> Seq<char>
    decreases d, 0int, k,
{
    if k <= 0 || k > d.children@.len() {
        Seq::empty()
    } else {
        let child = d.children@[k - 1].1;
        entries_text(d, base, color, k - 1) + base + if k - 1 == last_index(d) {
            "└── "@ + node_text(child, base + "    "@, color)
        } else {
            "├── "@ + node_text(child, base + "│   "@, color)
        }
    }
}

/// Every line of `t` after the first starts with `p`: each newline that is
/// not the last character is followed by `p`.
pub open spec fn lines_start_with(t: Seq<char>, p: Seq<char>) -> bool {
    forall|j: int| 0 <= j < t.len() - 1 && #[trigger] t[j] == '\n' ==>
        j + 1 + p.len() <= t.len() && t.subrange(j + 1, j + 1 + p.len()) == p
}

/// No name or tag of the tree below `n` spans lines.
pub open spec fn single_line_labels(n: ServerTreeNode, color: bool) -> bool
    decreases n, 1int, 0int,
{
    match n {
        ServerTreeNode::Child(o) => !named_text(o, color).contains('\n'),
        ServerTreeNode::Directory(d) => !colorize(d.name@, "[34;1m"@, color).contains('\n')
            && single_line_entries(d, color, d.children@.len() as int),
    }
}

/// No name or tag below the first `k` entries of `d` spans lines.
pub open spec fn single_line_entries(d: ServerDirectory, color: bool, k: int) -> bool
    decreases d, 0int, k,
{
    if k <= 0 || k > d.children@.len() {
        true
    } else {
        single_line_entries(d, color, k - 1) && single_line_labels(d.children@[k - 1].1, color)
    }
}

/// Joining two texts keeps every line starting with `p`, when the first
/// ends a line and the second starts with `p`.
proof fn lines_concat(a: Seq<char>, b: Seq<char>, p: Seq<char>)
    requires
        lines_start_with(a, p),
        lines_start_with(b, p),
        a.len() > 0 ==> a.last() == '\n',
        a.len() > 0 && b.len() > 0 ==> b.len() >= p.len() && b.take(p.len() as int) == p,
    ensures
        lines_start_with(a + b, p),
{
    let t = a + b;
    assert forall|j: int| 0 <= j < t.len() - 1 && #[trigger] t[j] == '\n' implies
        j + 1 + p.len() <= t.len() && t.subrange(j + 1, j + 1 + p.len()) == p by {
        if j < a.len() - 1 {
            assert(a[j] == '\n');
            assert(t.subrange(j + 1, j + 1 + p.len()) =~= a.subrange(j + 1, j + 1 + p.len()));
        } else if j == a.len() - 1 {
            assert(t.subrange(j + 1, j + 1 + p.len()) =~= b.take(p.len() as int));
        } else {
            let k = j - a.len();
            assert(b[k] == '\n');
            assert(t.subrange(j + 1, j + 1 + p.len()) =~= b.subrange(k + 1, k + 1 + p.len()));
        }
    }
}

/// Text without a newline in front keeps every line starting with `p`.
proof fn lines_after_single_line(x: Seq<char>, y: Seq<char>, p: Seq<char>)
    requires
        !x.contains('\n'),
        lines_start_with(y, p),
    ensures
        lines_start_with(x + y, p),
{
    let t = x + y;
    assert forall|j: int| 0 <= j < t.len() - 1 && #[trigger] t[j] == '\n' implies
        j + 1 + p.len() <= t.len() && t.subrange(j + 1, j + 1 + p.len()) == p by {
        if j < x.len() {
            assert(x[j] == t[j]);
        } else {
            let k = j - x.len();
            assert(y[k] == '\n');
            assert(t.subrange(j + 1, j + 1 + p.len()) =~= y.subrange(k + 1, k + 1 + p.len()));
        }
    }
}

/// Lines that start with `p + u` start with `p`.
proof fn lines_weaken(t: Seq<char>, p: Seq<char>, u: Seq<char>)
    requires
        lines_start_with(t, p + u),
    ensures
        lines_start_with(t, p),
{
    assert forall|j: int| 0 <= j < t.len() - 1 && #[trigger] t[j] == '\n' implies
        j + 1 + p.len() <= t.len() && t.subrange(j + 1, j + 1 + p.len()) == p by {
        assert(t.subrange(j + 1, j + 1 + (p + u).len()) == p + u);
        assert(t.subrange(j + 1, j + 1 + p.len()) =~= t.subrange(j + 1, j + 1 + (p + u).len()).take(p.len() as int));
        assert((p + u).take(p.len() as int) =~= p);
    }
}

/// What a node prints below `base` ends its last line, and every line after
/// its first starts with `base`.
proof fn node_lines(n: ServerTreeNode, base: Seq<char>, color: bool)
    requires
        single_line_labels(n, color),
        !base.contains('\n'),
    ensures
        node_text(n, base, color).len() > 0,
        node_text(n, base, color).last() == '\n',
        lines_start_with(node_text(n, base, color), base),
    decreases n, 1int, 0int,
{
    match n {
        ServerTreeNode::Child(o) => {
            let t = named_text(o, color);
            assert(lines_start_with("\n"@, base)) by {
                reveal_strlit("\n");
            }
            lines_after_single_line(t, "\n"@, base);
            reveal_strlit("\n");
            assert((t + "\n"@).last() == '\n');
        },
        ServerTreeNode::Directory(d) => {
            let head = colorize(d.name@, "[34;1m"@, color);
            reveal_strlit("\n");
            let k = d.children@.len() as int;
            entries_lines(d, base, color, k);
            let e = entries_text(d, base, color, k);
            assert(lines_start_with("\n"@, base));
            lines_after_single_line(head, "\n"@, base);
            assert((head + "\n"@).last() == '\n');
            lines_concat(head + "\n"@, e, base);
            assert(node_text(n, base, color) == (head + "\n"@) + e);
            if e.len() > 0 {
                assert((head + "\n"@ + e).last() == e.last());
            } else {
                assert(head + "\n"@ + e =~= head + "\n"@);
            }
        },
    }
}

/// The first `k` entries of `d` print as lines starting with `base`, the
/// first of them too, each ended.
proof fn entries_lines(d: ServerDirectory, base: Seq<char>, color: bool, k: int)
    requires
        single_line_entries(d, color, k),
        !base.contains('\n'),
    ensures
        lines_start_with(entries_text(d, base, color, k), base),
        entries_text(d, base, color, k).len() > 0 ==> entries_text(d, base, color, k).last() == '\n'
            && entries_text(d, base, color, k).len() >= base.len()
            && entries_text(d, base, color, k).take(base.len() as int) == base,
    decreases d, 0int, k,
{
    if k <= 0 || k > d.children@.len() {
        assert(lines_start_with(Seq::<char>::empty(), base));
    } else {
        let child = d.children@[k - 1].1;
        assert(decreases_to!(d => d.children@[k - 1].1));
        entries_lines(d, base, color, k - 1);
        let prev = entries_text(d, base, color, k - 1);
        reveal_strlit("└── ");
        reveal_strlit("├── ");
        reveal_strlit("    ");
        reveal_strlit("│   ");
        let (conn, unit) = if k - 1 == last_index(d) { ("└── "@, "    "@) } else { ("├── "@, "│   "@) };
        assert(!(base + unit).contains('\n')) by {
            assert forall|i: int| 0 <= i < (base + unit).len() implies (base + unit)[i] != '\n' by {
                if i < base.len() {
                    assert((base + unit)[i] == base[i]);
                } else {
                    assert((base + unit)[i] == unit[i - base.len()]);
                }
            }
        }
        node_lines(child, base + unit, color);
        let nt = node_text(child, base + unit, color);
        lines_weaken(nt, base, unit);
        assert(!(base + conn).contains('\n')) by {
            assert forall|i: int| 0 <= i < (base + conn).len() implies (base + conn)[i] != '\n' by {
                if i < base.len() {
                    assert((base + conn)[i] == base[i]);
                } else {
                    assert((base + conn)[i] == conn[i - base.len()]);
                }
            }
        }
        lines_after_single_line(base + conn, nt, base);
        let piece = base + conn + nt;
        assert(piece.take(base.len() as int) =~= base);
        lines_concat(prev, piece, base);
        assert(entries_text(d, base, color, k) == prev + piece);
        assert((prev + piece).last() == nt.last());
        if prev.len() > 0 {
            assert((prev + piece).take(base.len() as int) =~= prev.take(base.len() as int));
        } else {
            assert(prev + piece =~= piece);
        }
    }
}

/// The tree prints each entry of a directory on its branch, and indents the
/// whole subtree of the entry: below an entry that is not the directory's
/// last, every further line of its subtree starts with the directory's
/// indentation and a bar (`│   `); below the last entry, with blank space.
/// So an entry at depth k starts its line with k indentation units.
pub proof fn subtrees_are_indented_below_their_entry(d: ServerDirectory, base: Seq<char>, color: bool, i: int)
    requires
        single_line_entries(d, color, d.children@.len() as int),
        !base.contains('\n'),
        0 <= i < d.children@.len(),
    ensures
        i != last_index(d) ==> exists|t: Seq<char>| #[trigger] lines_start_with(t, base + "│   "@)
            && entries_text(d, base, color, i + 1) == entries_text(d, base, color, i) + base + "├── "@ + t,
        i == last_index(d) ==> exists|t: Seq<char>| #[trigger] lines_start_with(t, base + "    "@)
            && entries_text(d, base, color, i + 1) == entries_text(d, base, color, i) + base + "└── "@ + t,
{
    single_line_entries_prefix(d, color, d.children@.len() as int, i + 1);
    let child = d.children@[i].1;
    reveal_strlit("    ");
    reveal_strlit("│   ");
    let unit = if i == last_index(d) { "    "@ } else { "│   "@ };
    assert(!(base + unit).contains('\n')) by {
        assert forall|j: int| 0 <= j < (base + unit).len() implies (base + unit)[j] != '\n' by {
            if j < base.len() {
                assert((base + unit)[j] == base[j]);
            } else {
                assert((base + unit)[j] == unit[j - base.len()]);
            }
        }
    }
    node_lines(child, base + unit, color);
    let nt = node_text(child, base + unit, color);
    assert(lines_start_with(nt, base + unit));
}

/// What holds of the first `k` entries holds of fewer.
proof fn single_line_entries_prefix(d: ServerDirectory, color: bool, k: int, j: int)
    requires
        single_line_entries(d, color, k),
        0 < j <= k <= d.children@.len(),
    ensures
        single_line_entries(d, color, j),
        single_line_labels(d.children@[j - 1].1, color),
    decreases k - j,
{
    if j < k {
        single_line_entries_prefix(d, color, k - 1, j);
    }
}

/// The count line of a tree: directories and servers below the root, each
/// word singular for one.
pub open spec fn counts_text(dirs: nat, servers: nat) -> Seq<char> {
    "\n"@ + decimal(dirs) + " "@ + (if dirs == 1 { "directory"@ } else { "directories"@ }) + ", "@ + decimal(servers) + " "@
        + (if servers == 1 { "server"@ } else { "servers"@ })
}

/// How a whole tree prints: the tree, then for a directory the count line.
pub open spec fn tree_text(n: ServerTreeNode, color: bool) -> Seq<char> {
    node_text(n, Seq::empty(), color) + match n {
        ServerTreeNode::Directory(d) => counts_text(d.descendant_dir_count as nat, d.descendant_server_count as nat),
        ServerTreeNode::Child(_) => "Fah"@,
    }
}

fn push_node(out: &mut Vec<char>, n: &ServerTreeNode, base: &Vec<char>, color: bool)
    ensures
        final(out)@ == old(out)@ + node_text(*n, base@, color),
    decreases *n, 1int, 0int,
{
    match n {
        ServerTreeNode::Child(o) => {
            push_str(out, o.render(color).as_str());
            push_str(out, "\n");
        },
        ServerTreeNode::Directory(d) => {
            push_colorized(out, d.name.as_str(), "[34;1m", color);
            push_str(out, "\n");
            push_entries(out, d, base, color);
        },
    }
    assert(final(out)@ =~= old(out)@ + node_text(*n, base@, color));
}

#[verifier::spinoff_prover]
fn push_entries(out: &mut Vec<char>, d: &ServerDirectory, base: &Vec<char>, color: bool)
    ensures
        final(out)@ == old(out)@ + entries_text(*d, base@, color, d.children@.len() as int),
    decreases *d, 0int, d.children@.len(),
{
    let ghost start = out@;
    let n = d.children.len();
    let last: usize = if n == 0 { 0 } else { n - 1 };
    let mut i: usize = 0;
    while i < n
        invariant
            i <= n,
            n == d.children@.len(),
            last as int == last_index(*d),
            out@ == start + entries_text(*d, base@, color, i as int),
        decreases n - i,
    {
        push_all(out, base);
        let child = &d.children[i].1;
        proof {
            assert(decreases_to!(*d => d.children@[i as int].1));
        }
        if i == last {
            push_str(out, "└── ");
            let mut next = base.clone();
            push_str(&mut next, "    ");
            push_node(out, child, &next, color);
        } else {
            push_str(out, "├── ");
            let mut next = base.clone();
            push_str(&mut next, "│   ");
            push_node(out, child, &next, color);
        }
        i = i + 1;
        assert(out@ =~= start + entries_text(*d, base@, color, i as int));
    }
}

impl ServerTreeNode {
    /// How the tree prints: the tree, then for a directory how many
    /// directories and servers it holds.
    pub fn render(&self, color: bool) -> (res: String)
        ensures
            res@ == tree_text(*self, color),
    {
        let mut out: Vec<char> = Vec::new();
        let base: Vec<char> = Vec::new();
        push_node(&mut out, self, &base, color);
        assert(base@ =~= Seq::<char>::empty());
        match self {
            ServerTreeNode::Directory(d) => {
                push_str(&mut out, "\n");
                let dirs = decimal_chars(d.descendant_dir_count as u64);
                push_all(&mut out, &dirs);
                push_str(&mut out, " ");
                if d.descendant_dir_count == 1 {
                    push_str(&mut out, "directory");
                } else {
                    push_str(&mut out, "directories");
                }
                push_str(&mut out, ", ");
                let servers = decimal_chars(d.descendant_server_count as u64);
                push_all(&mut out, &servers);
                push_str(&mut out, " ");
                if d.descendant_server_count == 1 {
                    push_str(&mut out, "server");
                } else {
                    push_str(&mut out, "servers");
                }
            },
            ServerTreeNode::Child(_) => {
                push_str(&mut out, "Fah");
            },
        }
        assert(out@ =~= tree_text(*self, color));
        string_of(&out)
    }
}

} // verus!
