//! Listing servers: which servers a listing keeps, how it tags them, and the
//! order in which it shows them.
//!
//! Paths are ordered as `std::path::Path` orders them: component by
//! component, the root first, then `.`, then `..`, then names by their
//! characters.
use vstd::prelude::*;
use vstd::multiset::Multiset;
use crate::cli::ListingArguments;
use crate::collections::{distinct_keys, distinct_strings, key_map, map_get, set_contains, set_insert, string_set};
use crate::paths::{chars_less, dot, dot_dot, path_components, render_path, views_of, PathView, ServerPath, SEPARATOR};
use crate::session::{
    alive_servers, dead_servers, get_alive_server_sessions, get_dead_server_sessions,
    get_server_sessions_to_living, listing_indexable, listing_lines, living_map, opt_view,
    session_of_text,
};
use crate::text::{chars_of, replace_char, replace_chars, string_of};
use crate::tree::{AbsoluteServerObject, LastUsed, ServerState, ServerTags};

verus! {

/// Where a component stands among the kinds of component: the root, `.`,
/// `..`, then names.
pub open spec fn component_rank(c: Seq<char>) -> int {
    if c == seq![SEPARATOR] {
        0
    } else if c == dot() {
        1
    } else if c == dot_dot() {
        2
    } else {
        3
    }
}

/// The order of two components.
pub open spec fn component_less(a: Seq<char>, b: Seq<char>) -> bool {
    component_rank(a) < component_rank(b) || (component_rank(a) == 3 && component_rank(b) == 3 && chars_less(a, b))
}

/// The order of two sequences of components: the first difference decides,
/// and a prefix comes first.
pub open spec fn components_less(a: Seq<Seq<char>>, b: Seq<Seq<char>>) -> bool
    decreases a.len(),
{
    if a.len() == 0 {
        b.len() > 0
    } else if b.len() == 0 {
        false
    } else if a[0] != b[0] {
        component_less(a[0], b[0])
    } else {
        components_less(a.drop_first(), b.drop_first())
    }
}

/// The order of two paths.
pub open spec fn path_less(a: PathView, b: PathView) -> bool {
    components_less(path_components(a), path_components(b))
}

/// No text comes before itself.
pub proof fn lemma_chars_less_irreflexive(a: Seq<char>)
    ensures
        !chars_less(a, a),
    decreases a.len(),
{
    if a.len() > 0 {
        lemma_chars_less_irreflexive(a.drop_first());
    }
}

/// Of two texts, at most one comes first.
pub proof fn lemma_chars_less_asymmetric(a: Seq<char>, b: Seq<char>)
    ensures
        chars_less(a, b) ==> !chars_less(b, a),
    decreases a.len(),
{
    if a.len() > 0 && b.len() > 0 && a[0] == b[0] {
        lemma_chars_less_asymmetric(a.drop_first(), b.drop_first());
    }
}

/// The order of texts is transitive.
pub proof fn lemma_chars_less_transitive(a: Seq<char>, b: Seq<char>, c: Seq<char>)
    requires
        chars_less(a, b),
        chars_less(b, c),
    ensures
        chars_less(a, c),
    decreases a.len(),
{
    if a.len() > 0 && b.len() > 0 && c.len() > 0 && a[0] == b[0] && b[0] == c[0] {
        lemma_chars_less_transitive(a.drop_first(), b.drop_first(), c.drop_first());
    }
}

/// Of two different texts, one comes first.
pub proof fn lemma_chars_less_total(a: Seq<char>, b: Seq<char>)
    requires
        a != b,
    ensures
        chars_less(a, b) || chars_less(b, a),
    decreases a.len(),
{
    if a.len() > 0 && b.len() > 0 && a[0] == b[0] {
        if a.drop_first() == b.drop_first() {
            assert(a =~= seq![a[0]] + a.drop_first());
            assert(b =~= seq![b[0]] + b.drop_first());
        }
        lemma_chars_less_total(a.drop_first(), b.drop_first());
    } else if a.len() > 0 && b.len() > 0 {
        vstd::utf8::char_u32_cast(a[0], a[0] as u32);
        vstd::utf8::char_u32_cast(b[0], b[0] as u32);
        assert((a[0] as u32) != (b[0] as u32));
    } else if a.len() == 0 && b.len() == 0 {
        assert(a =~= b);
    }
}

/// The order of components is a strict total order.
pub proof fn lemma_component_less_order(a: Seq<char>, b: Seq<char>, c: Seq<char>)
    ensures
        !component_less(a, a),
        component_less(a, b) ==> !component_less(b, a),
        component_less(a, b) && component_less(b, c) ==> component_less(a, c),
        a != b ==> component_less(a, b) || component_less(b, a),
{
    lemma_chars_less_irreflexive(a);
    lemma_chars_less_asymmetric(a, b);
    if chars_less(a, b) && chars_less(b, c) {
        lemma_chars_less_transitive(a, b, c);
    }
    if a != b {
        lemma_chars_less_total(a, b);
    }
}

/// No component sequence comes before itself.
pub proof fn lemma_components_less_irreflexive(a: Seq<Seq<char>>)
    ensures
        !components_less(a, a),
    decreases a.len(),
{
    if a.len() > 0 {
        lemma_components_less_irreflexive(a.drop_first());
    }
}

/// Of two component sequences, at most one comes first.
pub proof fn lemma_components_less_asymmetric(a: Seq<Seq<char>>, b: Seq<Seq<char>>)
    ensures
        components_less(a, b) ==> !components_less(b, a),
    decreases a.len(),
{
    if a.len() > 0 && b.len() > 0 {
        lemma_component_less_order(a[0], b[0], b[0]);
        if a[0] == b[0] {
            lemma_components_less_asymmetric(a.drop_first(), b.drop_first());
        }
    }
}

/// The order of component sequences is transitive.
pub proof fn lemma_components_less_transitive(a: Seq<Seq<char>>, b: Seq<Seq<char>>, c: Seq<Seq<char>>)
    requires
        components_less(a, b),
        components_less(b, c),
    ensures
        components_less(a, c),
    decreases a.len(),
{
    if a.len() > 0 && b.len() > 0 && c.len() > 0 {
        lemma_component_less_order(a[0], b[0], c[0]);
        lemma_component_less_order(b[0], c[0], a[0]);
        lemma_component_less_order(a[0], c[0], b[0]);
        if a[0] == b[0] && b[0] == c[0] {
            lemma_components_less_transitive(a.drop_first(), b.drop_first(), c.drop_first());
        }
    }
}

/// Of two different component sequences, one comes first.
pub proof fn lemma_components_less_total(a: Seq<Seq<char>>, b: Seq<Seq<char>>)
    requires
        a != b,
    ensures
        components_less(a, b) || components_less(b, a),
    decreases a.len(),
{
    if a.len() > 0 && b.len() > 0 {
        lemma_component_less_order(a[0], b[0], b[0]);
        if a[0] == b[0] {
            if a.drop_first() == b.drop_first() {
                assert(a =~= seq![a[0]] + a.drop_first());
                assert(b =~= seq![b[0]] + b.drop_first());
            }
            lemma_components_less_total(a.drop_first(), b.drop_first());
        }
    } else if a.len() == 0 && b.len() == 0 {
        assert(a =~= b);
    }
}

/// The order of component sequences is a strict total order.
pub proof fn lemma_components_less_order(a: Seq<Seq<char>>, b: Seq<Seq<char>>, c: Seq<Seq<char>>)
    ensures
        !components_less(a, a),
        components_less(a, b) ==> !components_less(b, a),
        components_less(a, b) && components_less(b, c) ==> components_less(a, c),
        a != b ==> components_less(a, b) || components_less(b, a),
{
    lemma_components_less_irreflexive(a);
    lemma_components_less_asymmetric(a, b);
    if components_less(a, b) && components_less(b, c) {
        lemma_components_less_transitive(a, b, c);
    }
    if a != b {
        lemma_components_less_total(a, b);
    }
}

/// The order of paths is a strict total order on their components.
pub proof fn lemma_path_less_order(a: PathView, b: PathView, c: PathView)
    ensures
        !path_less(a, a),
        path_less(a, b) ==> !path_less(b, a),
        path_less(a, b) && path_less(b, c) ==> path_less(a, c),
        path_components(a) != path_components(b) ==> path_less(a, b) || path_less(b, a),
{
    lemma_components_less_order(path_components(a), path_components(b), path_components(c));
}

/// Whether `a` comes before `b`, character by character.
fn chars_lt(a: &Vec<char>, b: &Vec<char>) -> (res: bool)
    ensures
        res == chars_less(a@, b@),
{
    let mut i: usize = 0;
    assert(a@.skip(0) =~= a@);
    assert(b@.skip(0) =~= b@);
    while i < a.len() && i < b.len()
        invariant
            i <= a.len(),
            i <= b.len(),
            chars_less(a@, b@) == chars_less(a@.skip(i as int), b@.skip(i as int)),
        decreases a.len() - i,
    {
        let x = a[i];
        let y = b[i];
        proof {
            assert(a@.skip(i as int)[0] == x);
            assert(b@.skip(i as int)[0] == y);
        }
        if x != y {
            return (x as u32) < (y as u32);
        }
        proof {
            assert(a@.skip(i as int).drop_first() =~= a@.skip(i + 1));
            assert(b@.skip(i as int).drop_first() =~= b@.skip(i + 1));
        }
        i = i + 1;
    }
    i < b.len()
}

/// Whether component `a` comes before component `b`.
fn component_lt(a: &String, b: &String) -> (res: bool)
    ensures
        res == component_less(a@, b@),
{
    let x = crate::text::chars_of(a.as_str());
    let y = crate::text::chars_of(b.as_str());
    let rx = rank_of(&x);
    let ry = rank_of(&y);
    if rx != ry {
        return rx < ry;
    }
    if rx != 3 {
        return false;
    }
    chars_lt(&x, &y)
}

/// Where a component stands among the kinds of component.
fn rank_of(c: &Vec<char>) -> (res: u8)
    ensures
        res as int == component_rank(c@),
{
    if c.len() == 1 && c[0] == SEPARATOR {
        assert(c@ =~= seq![SEPARATOR]);
        return 0;
    }
    if c.len() == 1 && c[0] == '.' {
        assert(c@ =~= dot());
        assert(c@ != seq![SEPARATOR]);
        return 1;
    }
    if c.len() == 2 && c[0] == '.' && c[1] == '.' {
        assert(c@ =~= dot_dot());
        assert(c@ != seq![SEPARATOR]);
        assert(c@ != dot());
        return 2;
    }
    proof {
        if c@ == seq![SEPARATOR] {
            assert(c@.len() == 1 && c@[0] == SEPARATOR);
        }
        if c@ == dot() {
            assert(c@.len() == 1 && c@[0] == '.');
        }
        if c@ == dot_dot() {
            assert(c@.len() == 2 && c@[0] == '.' && c@[1] == '.');
        }
    }
    3
}

/// Whether path `a` comes before path `b`.
pub fn path_lt(a: &ServerPath, b: &ServerPath) -> (res: bool)
    ensures
        res == path_less(a@, b@),
{
    let x = a.components();
    let y = b.components();
    let ghost xs = views_of(x@);
    let ghost ys = views_of(y@);
    let mut i: usize = 0;
    assert(xs.skip(0) =~= xs);
    assert(ys.skip(0) =~= ys);
    while i < x.len() && i < y.len()
        invariant
            i <= x.len(),
            i <= y.len(),
            xs == views_of(x@),
            ys == views_of(y@),
            xs == path_components(a@),
            ys == path_components(b@),
            path_less(a@, b@) == components_less(xs.skip(i as int), ys.skip(i as int)),
        decreases x.len() - i,
    {
        proof {
            assert(xs.skip(i as int)[0] == x@[i as int]@);
            assert(ys.skip(i as int)[0] == y@[i as int]@);
        }
        if x[i] != y[i] {
            return component_lt(&x[i], &y[i]);
        }
        proof {
            assert(xs.skip(i as int).drop_first() =~= xs.skip(i + 1));
            assert(ys.skip(i as int).drop_first() =~= ys.skip(i + 1));
        }
        i = i + 1;
    }
    i < y.len()
}

/// Every server of `s` comes no later than those after it.
pub open spec fn sorted_servers(s: Seq<AbsoluteServerObject>) -> bool {
    forall|i: int, j: int| 0 <= i < j < s.len() ==> !path_less(#[trigger] s[j].path@, #[trigger] s[i].path@)
}

/// Sorts the servers by path (`sort_unstable` on the servers, which compare
/// by path).
pub fn sort_servers(servers: &mut Vec<AbsoluteServerObject>)
    ensures
        sorted_servers(final(servers)@),
        final(servers)@.to_multiset() == old(servers)@.to_multiset(),
{
    let mut all: Vec<AbsoluteServerObject> = Vec::new();
    std::mem::swap(&mut all, servers);
    let ghost orig = all@;
    assert(orig.len() == all.len());
    let mut out: Vec<AbsoluteServerObject> = Vec::new();
    let mut k: usize = 0;
    proof {
        assert(orig.take(0) =~= Seq::<AbsoluteServerObject>::empty());
        assert(orig.skip(0) =~= orig);
    }
    while all.len() > 0
        invariant
            k <= orig.len(),
            orig.len() <= usize::MAX,
            all@ == orig.skip(k as int),
            sorted_servers(out@),
            out@.to_multiset() == orig.take(k as int).to_multiset(),
        decreases all.len(),
    {
        let x = all.remove(0);
        proof {
            assert(x == orig[k as int]);
            assert(all@ =~= orig.skip(k + 1));
        }
        let mut pos: usize = 0;
        while pos < out.len() && !path_lt(&x.path, &out[pos].path)
            invariant
                pos <= out.len(),
                forall|i: int| 0 <= i < pos ==> !path_less(x.path@, #[trigger] out@[i].path@),
            decreases out.len() - pos,
        {
            pos = pos + 1;
        }
        let ghost before = out@;
        out.insert(pos, x);
        proof {
            let n = out@;
            assert(n =~= before.insert(pos as int, x));
            assert forall|i: int, j: int| 0 <= i < j < n.len() implies !path_less(#[trigger] n[j].path@, #[trigger] n[i].path@) by {
                if j < pos {
                    assert(n[i] == before[i] && n[j] == before[j]);
                } else if j == pos {
                    assert(n[i] == before[i]);
                    assert(!path_less(x.path@, before[i].path@));
                    lemma_path_less_order(x.path@, before[i].path@, x.path@);
                    if path_components(x.path@) == path_components(before[i].path@) {
                        assert(!path_less(x.path@, x.path@));
                    }
                } else if i == pos {
                    assert(n[j] == before[j - 1]);
                    assert(path_less(x.path@, before[pos as int].path@));
                    lemma_path_less_order(before[j - 1].path@, x.path@, before[pos as int].path@);
                    lemma_path_less_order(x.path@, before[j - 1].path@, x.path@);
                    if j - 1 > pos {
                        assert(!path_less(before[j - 1].path@, before[pos as int].path@));
                    }
                } else if i < pos {
                    assert(n[i] == before[i] && n[j] == before[j - 1]);
                } else {
                    assert(n[i] == before[i - 1] && n[j] == before[j - 1]);
                }
            }
            vstd::seq_lib::to_multiset_insert(before, pos as int, x);
            assert(orig.take(k + 1) =~= orig.take(k as int).push(x));
            vstd::seq_lib::to_multiset_build(orig.take(k as int), x);
        }
        k = k + 1;
    }
    proof {
        assert(orig.take(k as int) =~= orig);
    }
    *servers = out;
}

/// The key by which a listing looks a server up: its path's text with
/// separators turned into dots (the server name that a session line gives),
/// or the text of its path.
pub open spec fn server_key(p: PathView, by_session: bool) -> Seq<char> {
    if by_session {
        session_of_text(render_path(p))
    } else {
        render_path(p)
    }
}

/// The server with its last use recorded.
pub open spec fn with_last_used(o: AbsoluteServerObject, l: LastUsed) -> AbsoluteServerObject {
    AbsoluteServerObject { path: o.path, tags: ServerTags { last_used: Some(l), state: o.tags.state } }
}

/// The server with its session's state recorded.
pub open spec fn with_state(o: AbsoluteServerObject, st: ServerState) -> AbsoluteServerObject {
    AbsoluteServerObject { path: o.path, tags: ServerTags { last_used: o.tags.last_used, state: Some(st) } }
}

/// Each server with the last use beside it recorded.
pub open spec fn tagged_with(v: Seq<AbsoluteServerObject>, lu: Seq<LastUsed>) -> Seq<AbsoluteServerObject> {
    Seq::new(v.len(), |i: int| with_last_used(v[i], lu[i]))
}

/// The servers of `v`, in order, whose key is among `names` (when `member`)
/// or not (otherwise).
pub open spec fn retained(v: Seq<AbsoluteServerObject>, names: Set<Seq<char>>, by_session: bool, member: bool) -> Seq<AbsoluteServerObject>
    decreases v.len(),
{
    if v.len() == 0 {
        Seq::empty()
    } else {
        let r = retained(v.drop_last(), names, by_session, member);
        if names.contains(server_key(v.last().path@, by_session)) == member {
            r.push(v.last())
        } else {
            r
        }
    }
}

/// The key of a server: its dotted path or its path's text.
fn key_of(o: &AbsoluteServerObject, by_session: bool) -> (res: String)
    ensures
        res@ == server_key(o.path@, by_session),
{
    if by_session {
        let text = o.path.render();
        let cs = chars_of(text.as_str());
        let r = replace_chars(&cs, SEPARATOR, '.');
        string_of(&r)
    } else {
        o.path.render()
    }
}

impl LastUsed {
    /// A copy.
    pub fn duplicate(&self) -> (res: LastUsed)
        ensures
            res == *self,
    {
        match self {
            LastUsed::Never => LastUsed::Never,
            LastUsed::Unknown => LastUsed::Unknown,
            LastUsed::Time(t) => LastUsed::Time(t.clone()),
        }
    }
}

/// Keeps the servers whose key is among `names` (or not), and when `tag`,
/// records for each kept server the last use that stood beside it.
fn retain_members(
    servers: &mut Vec<AbsoluteServerObject>,
    names: &Vec<String>,
    by_session: bool,
    member: bool,
    last_used: &Vec<LastUsed>,
    tag: bool,
)
    requires
        tag ==> last_used@.len() == old(servers)@.len(),
    ensures
        !tag ==> final(servers)@ == retained(old(servers)@, string_set(names@), by_session, member),
        tag ==> final(servers)@ == retained(tagged_with(old(servers)@, last_used@), string_set(names@), by_session, member),
{
    let mut all: Vec<AbsoluteServerObject> = Vec::new();
    std::mem::swap(&mut all, servers);
    let ghost orig = all@;
    assert(orig.len() == all.len());
    let ghost src = if tag { tagged_with(orig, last_used@) } else { orig };
    let mut out: Vec<AbsoluteServerObject> = Vec::new();
    let mut k: usize = 0;
    proof {
        assert(orig.skip(0) =~= orig);
        assert(src.take(0) =~= Seq::<AbsoluteServerObject>::empty());
    }
    while all.len() > 0
        invariant
            k <= orig.len(),
            orig.len() <= usize::MAX,
            src.len() == orig.len(),
            tag ==> last_used@.len() == orig.len(),
            src == (if tag { tagged_with(orig, last_used@) } else { orig }),
            all@ == orig.skip(k as int),
            out@ == retained(src.take(k as int), string_set(names@), by_session, member),
        decreases all.len(),
    {
        let mut x = all.remove(0);
        proof {
            assert(x == orig[k as int]);
            assert(all@ =~= orig.skip(k + 1));
        }
        let key = key_of(&x, by_session);
        let present = set_contains(names, &key);
        if tag {
            let l = last_used[k].duplicate();
            x.set_last_used(l);
        }
        proof {
            assert(x == src[k as int]);
            assert(src.take(k + 1).drop_last() =~= src.take(k as int));
            assert(src.take(k + 1).last() == src[k as int]);
        }
        if present == member {
            out.push(x);
        }
        k = k + 1;
    }
    proof {
        assert(src.take(k as int) =~= src);
    }
    *servers = out;
}

/// The servers whose sessions live, per the multiplexer's listing.
pub open spec fn alive_of(listing: Option<String>) -> Set<Seq<char>> {
    alive_servers(listing_lines(opt_view(listing)))
}

/// The servers whose sessions have exited, per the multiplexer's listing.
pub open spec fn dead_of(listing: Option<String>) -> Set<Seq<char>> {
    dead_servers(listing_lines(opt_view(listing)))
}

/// Keeps the servers whose path, as text, names a living session.
pub fn retain_active(servers: &mut Vec<AbsoluteServerObject>, listing: &Option<String>)
    requires
        listing_indexable(opt_view(*listing)),
    ensures
        final(servers)@ == retained(old(servers)@, alive_of(*listing), false, true),
{
    let names = get_alive_server_sessions(listing);
    let none: Vec<LastUsed> = Vec::new();
    retain_members(servers, &names, false, true, &none, false);
}

/// Keeps the servers whose path, as text, names no living session, and
/// records for each its last use (`last_used` stands beside `servers`).
pub fn retain_and_tag_inactive(servers: &mut Vec<AbsoluteServerObject>, listing: &Option<String>, last_used: &Vec<LastUsed>)
    requires
        listing_indexable(opt_view(*listing)),
        last_used@.len() == old(servers)@.len(),
    ensures
        final(servers)@ == retained(tagged_with(old(servers)@, last_used@), alive_of(*listing), false, false),
{
    let names = get_alive_server_sessions(listing);
    retain_members(servers, &names, false, false, last_used, true);
}

/// Keeps the servers whose dotted path is among the servers of the exited
/// sessions, and records for each its last use (`last_used` stands beside
/// `servers`).
pub fn retain_and_tag_dead(servers: &mut Vec<AbsoluteServerObject>, listing: &Option<String>, last_used: &Vec<LastUsed>)
    requires
        listing_indexable(opt_view(*listing)),
        last_used@.len() == old(servers)@.len(),
    ensures
        final(servers)@ == retained(tagged_with(old(servers)@, last_used@), dead_of(*listing), true, true),
{
    let names = get_dead_server_sessions(listing);
    retain_members(servers, &names, true, true, last_used, true);
}

/// Marks dead the servers whose dotted path is among the servers of the
/// exited sessions.
pub fn tag_dead(servers: &mut Vec<AbsoluteServerObject>, listing: &Option<String>)
    requires
        listing_indexable(opt_view(*listing)),
    ensures
        final(servers)@.len() == old(servers)@.len(),
        forall|i: int| 0 <= i < old(servers)@.len() ==> #[trigger] final(servers)@[i] == (
            if dead_of(*listing).contains(server_key(old(servers)@[i].path@, true)) {
                with_state(old(servers)@[i], ServerState::Dead)
            } else {
                old(servers)@[i]
            }),
{
    let names = get_dead_server_sessions(listing);
    let mut all: Vec<AbsoluteServerObject> = Vec::new();
    std::mem::swap(&mut all, servers);
    let ghost orig = all@;
    assert(orig.len() == all.len());
    let mut out: Vec<AbsoluteServerObject> = Vec::new();
    let mut k: usize = 0;
    assert(orig.skip(0) =~= orig);
    while all.len() > 0
        invariant
            k <= orig.len(),
            orig.len() <= usize::MAX,
            all@ == orig.skip(k as int),
            out@.len() == k,
            string_set(names@) == dead_of(*listing),
            forall|i: int| 0 <= i < k ==> #[trigger] out@[i] == (
                if dead_of(*listing).contains(server_key(orig[i].path@, true)) {
                    with_state(orig[i], ServerState::Dead)
                } else {
                    orig[i]
                }),
        decreases all.len(),
    {
        let mut x = all.remove(0);
        proof {
            assert(x == orig[k as int]);
            assert(all@ =~= orig.skip(k + 1));
        }
        let key = key_of(&x, true);
        if set_contains(&names, &key) {
            x.set_state(ServerState::Dead);
        }
        out.push(x);
        k = k + 1;
    }
    *servers = out;
}

/// How a full listing tags a server, given whether its session lives (if it
/// has one) and its last use: a living one is active; a dead one gets its
/// last use and is dead; one without a session gets its last use.
pub open spec fn fully_tagged(o: AbsoluteServerObject, living: Map<Seq<char>, bool>, l: LastUsed) -> AbsoluteServerObject {
    let key = server_key(o.path@, true);
    if living.contains_key(key) {
        if living[key] {
            with_state(o, ServerState::Active)
        } else {
            with_state(with_last_used(o, l), ServerState::Dead)
        }
    } else {
        with_last_used(o, l)
    }
}

/// The servers' sessions mapped to whether they live, per the listing.
pub open spec fn living_of(listing: Option<String>) -> Map<Seq<char>, bool> {
    living_map(listing_lines(opt_view(listing)))
}

/// Tags every server by its session: active, or dead with its last use, or
/// only its last use when it has no session (`last_used` stands beside
/// `servers`).
pub fn fully_tag_servers(servers: &mut Vec<AbsoluteServerObject>, listing: &Option<String>, last_used: &Vec<LastUsed>)
    requires
        listing_indexable(opt_view(*listing)),
        last_used@.len() == old(servers)@.len(),
    ensures
        final(servers)@.len() == old(servers)@.len(),
        forall|i: int| 0 <= i < old(servers)@.len() ==> #[trigger] final(servers)@[i]
            == fully_tagged(old(servers)@[i], living_of(*listing), last_used@[i]),
{
    let mapped = get_server_sessions_to_living(listing);
    let mut all: Vec<AbsoluteServerObject> = Vec::new();
    std::mem::swap(&mut all, servers);
    let ghost orig = all@;
    assert(orig.len() == all.len());
    let mut out: Vec<AbsoluteServerObject> = Vec::new();
    let mut k: usize = 0;
    assert(orig.skip(0) =~= orig);
    while all.len() > 0
        invariant
            k <= orig.len(),
            orig.len() <= usize::MAX,
            last_used@.len() == orig.len(),
            all@ == orig.skip(k as int),
            out@.len() == k,
            distinct_keys(mapped@),
            key_map(mapped@) == living_of(*listing),
            forall|i: int| 0 <= i < k ==> #[trigger] out@[i] == fully_tagged(orig[i], living_of(*listing), last_used@[i]),
        decreases all.len(),
    {
        let mut x = all.remove(0);
        proof {
            assert(x == orig[k as int]);
            assert(all@ =~= orig.skip(k + 1));
        }
        let key = key_of(&x, true);
        match map_get(&mapped, key.as_str()) {
            Some(alive) => {
                if *alive {
                    x.set_state(ServerState::Active);
                } else {
                    let l = last_used[k].duplicate();
                    x.set_last_used(l);
                    x.set_state(ServerState::Dead);
                }
            },
            None => {
                let l = last_used[k].duplicate();
                x.set_last_used(l);
            },
        }
        out.push(x);
        k = k + 1;
    }
    *servers = out;
}

/// The servers found, without tags.
pub open spec fn fresh_servers(found: Seq<ServerPath>) -> Seq<AbsoluteServerObject> {
    Seq::new(found.len(), |i: int| AbsoluteServerObject { path: found[i], tags: ServerTags { last_used: None, state: None } })
}

/// Each server marked dead when its dotted path is among `dead`.
pub open spec fn dead_tagged(v: Seq<AbsoluteServerObject>, dead: Set<Seq<char>>) -> Seq<AbsoluteServerObject> {
    Seq::new(v.len(), |i: int| if dead.contains(server_key(v[i].path@, true)) {
        with_state(v[i], ServerState::Dead)
    } else {
        v[i]
    })
}

/// Each server tagged as a full listing tags it.
pub open spec fn fully_tagged_all(v: Seq<AbsoluteServerObject>, living: Map<Seq<char>, bool>, lu: Seq<LastUsed>) -> Seq<AbsoluteServerObject> {
    Seq::new(v.len(), |i: int| fully_tagged(v[i], living, lu[i]))
}

/// The servers that a listing shows, before sorting: with `active`, those
/// with a living session; with `inactive`, those without, with their last
/// use, and marked dead when `dead` too; with `dead` alone, those whose
/// session exited, with their last use; otherwise all, fully tagged.
pub open spec fn listed(
    args: ListingArguments,
    found: Seq<ServerPath>,
    listing: Option<String>,
    lu: Seq<LastUsed>,
) -> Seq<AbsoluteServerObject> {
    let v = fresh_servers(found);
    if args.active {
        retained(v, alive_of(listing), false, true)
    } else if args.inactive {
        let r = retained(tagged_with(v, lu), alive_of(listing), false, false);
        if args.dead {
            dead_tagged(r, dead_of(listing))
        } else {
            r
        }
    } else if args.dead {
        retained(tagged_with(v, lu), dead_of(listing), true, true)
    } else {
        fully_tagged_all(v, living_of(listing), lu)
    }
}

/// The servers that `retained` keeps are servers of `v` whose key is among
/// `names` (or not, as `member` says), and every such server is kept.
proof fn retained_members(v: Seq<AbsoluteServerObject>, names: Set<Seq<char>>, by_session: bool, member: bool)
    ensures
        forall|x: AbsoluteServerObject| #[trigger] retained(v, names, by_session, member).contains(x) ==>
            v.contains(x) && names.contains(server_key(x.path@, by_session)) == member,
        forall|i: int| 0 <= i < v.len() && names.contains(server_key(v[i].path@, by_session)) == member ==>
            #[trigger] retained(v, names, by_session, member).contains(v[i]),
    decreases v.len(),
{
    if v.len() > 0 {
        let init = v.drop_last();
        retained_members(init, names, by_session, member);
        let r = retained(init, names, by_session, member);
        assert forall|x: AbsoluteServerObject| #[trigger] retained(v, names, by_session, member).contains(x) implies
            v.contains(x) && names.contains(server_key(x.path@, by_session)) == member by {
            if r.contains(x) {
                let k = choose|k: int| 0 <= k < init.len() && init[k] == x;
                assert(v[k] == x);
            } else {
                assert(x == v.last());
                assert(v[v.len() - 1] == x);
            }
        }
        assert forall|i: int| 0 <= i < v.len() && names.contains(server_key(v[i].path@, by_session)) == member implies
            #[trigger] retained(v, names, by_session, member).contains(v[i]) by {
            if i < v.len() - 1 {
                assert(init[i] == v[i]);
                assert(r.contains(v[i]));
                if names.contains(server_key(v.last().path@, by_session)) == member {
                    let k = choose|k: int| 0 <= k < r.len() && r[k] == v[i];
                    assert(r.push(v.last())[k] == v[i]);
                }
            } else {
                let rr = r.push(v.last());
                assert(rr[rr.len() - 1] == v[i]);
            }
        }
    }
}

/// The dotted path of a server: its path's text with separators turned into
/// dots, which is how session lines name the server.
pub open spec fn dotted_path(p: PathView) -> Seq<char> {
    replace_char(render_path(p), SEPARATOR, '.')
}

/// The listing arguments that show only exited servers.
pub open spec fn dead_only() -> ListingArguments {
    ListingArguments { active: false, inactive: false, dead: true }
}

/// The listing arguments that show every server, fully tagged.
pub open spec fn everything() -> ListingArguments {
    ListingArguments { active: false, inactive: false, dead: false }
}

/// Listing exited servers shows exactly the servers found whose dotted path
/// names a server of an exited session, each with its last use.
pub proof fn dead_listing_shows_exited_servers(found: Seq<ServerPath>, listing: Option<String>, lu: Seq<LastUsed>)
    requires
        lu.len() == found.len(),
    ensures
        forall|i: int| 0 <= i < found.len() && dead_of(listing).contains(dotted_path(found[i]@)) ==>
            #[trigger] listed(dead_only(), found, listing, lu).contains(
                AbsoluteServerObject { path: found[i], tags: ServerTags { last_used: Some(lu[i]), state: None } }),
        forall|x: AbsoluteServerObject| #[trigger] listed(dead_only(), found, listing, lu).contains(x) ==>
            dead_of(listing).contains(dotted_path(x.path@)),
{
    let t = tagged_with(fresh_servers(found), lu);
    retained_members(t, dead_of(listing), true, true);
    assert forall|i: int| 0 <= i < found.len() && dead_of(listing).contains(dotted_path(found[i]@)) implies
        #[trigger] listed(dead_only(), found, listing, lu).contains(
            AbsoluteServerObject { path: found[i], tags: ServerTags { last_used: Some(lu[i]), state: None } }) by {
        assert(t[i] == AbsoluteServerObject { path: found[i], tags: ServerTags { last_used: Some(lu[i]), state: None } });
    }
}

/// The full listing tags each server found by the session that its dotted
/// path names: active when it lives, dead (with its last use) when it
/// exited, and only its last use without a session.
pub proof fn full_listing_tags_by_dotted_path(found: Seq<ServerPath>, listing: Option<String>, lu: Seq<LastUsed>)
    requires
        lu.len() == found.len(),
    ensures
        listed(everything(), found, listing, lu).len() == found.len(),
        forall|i: int| 0 <= i < found.len() ==> {
            let o = #[trigger] listed(everything(), found, listing, lu)[i];
            let key = dotted_path(found[i]@);
            let living = living_of(listing);
            &&& o.path == found[i]
            &&& living.contains_key(key) && living[key] ==> o.tags.state == Some(ServerState::Active) && o.tags.last_used is None
            &&& living.contains_key(key) && !living[key] ==> o.tags.state == Some(ServerState::Dead) && o.tags.last_used == Some(lu[i])
            &&& !living.contains_key(key) ==> o.tags.state is None && o.tags.last_used == Some(lu[i])
        },
{
}

/// Listing servers without a living session, marking the dead ones, marks
/// dead exactly those whose dotted path names a server of an exited session.
pub proof fn inactive_listing_marks_exited_servers(found: Seq<ServerPath>, listing: Option<String>, lu: Seq<LastUsed>)
    requires
        lu.len() == found.len(),
    ensures
        forall|k: int| 0 <= k < listed(ListingArguments { active: false, inactive: true, dead: true }, found, listing, lu).len() ==> {
            let o = #[trigger] listed(ListingArguments { active: false, inactive: true, dead: true }, found, listing, lu)[k];
            o.tags.state == Some(ServerState::Dead) <==> dead_of(listing).contains(dotted_path(o.path@))
        },
{
    let t = tagged_with(fresh_servers(found), lu);
    let r = retained(t, alive_of(listing), false, false);
    retained_members(t, alive_of(listing), false, false);
    assert forall|k: int| 0 <= k < r.len() implies (#[trigger] r[k]).tags.state is None by {
        assert(r.contains(r[k]));
        let i = choose|i: int| 0 <= i < t.len() && t[i] == r[k];
    }
}

/// The servers found in the servers directory, as the listing arguments
/// choose and tag them, sorted by path; `last_used` holds the last use of
/// each server found, and `listing` the multiplexer's session listing.
pub fn get_servers_list(
    listing_arguments: ListingArguments,
    found: Vec<ServerPath>,
    listing: &Option<String>,
    last_used: &Vec<LastUsed>,
) -> (res: Vec<AbsoluteServerObject>)
    requires
        listing_indexable(opt_view(*listing)),
        last_used@.len() == found@.len(),
    ensures
        sorted_servers(res@),
        res@.to_multiset() == listed(listing_arguments, found@, *listing, last_used@).to_multiset(),
{
    let ghost fresh = fresh_servers(found@);
    let mut servers: Vec<AbsoluteServerObject> = Vec::new();
    let mut rest = found;
    let ghost orig = rest@;
    assert(orig.skip(0) =~= orig);
    assert(orig.len() == rest.len());
    while rest.len() > 0
        invariant
            servers@.len() <= orig.len(),
            orig.len() <= usize::MAX,
            rest@ == orig.skip(servers@.len() as int),
            servers@ == fresh_servers(orig).take(servers@.len() as int),
        decreases rest.len(),
    {
        let p = rest.remove(0);
        let ghost k: int = servers@.len() as int;
        proof {
            assert(p == orig[k]);
            assert(rest@ =~= orig.skip(k + 1));
        }
        servers.push(AbsoluteServerObject::new(p));
        assert(servers@ =~= fresh_servers(orig).take(k + 1));
    }
    assert(servers@ =~= fresh_servers(orig));
    let ghost listed_seq = listed(listing_arguments, orig, *listing, last_used@);
    if listing_arguments.active {
        retain_active(&mut servers, listing);
    } else if listing_arguments.inactive {
        retain_and_tag_inactive(&mut servers, listing, last_used);
        if listing_arguments.dead {
            let ghost r = servers@;
            tag_dead(&mut servers, listing);
            assert(servers@ =~= dead_tagged(r, dead_of(*listing)));
        }
    } else if listing_arguments.dead {
        retain_and_tag_dead(&mut servers, listing, last_used);
    } else {
        fully_tag_servers(&mut servers, listing, last_used);
        assert(servers@ =~= fully_tagged_all(fresh_servers(orig), living_of(*listing), last_used@));
    }
    assert(servers@ == listed_seq);
    sort_servers(&mut servers);
    servers
}

/// The text of each server path found, each once (`get_all_hashed`).
pub fn get_all_hashed(found: &Vec<ServerPath>) -> (res: Vec<String>)
    ensures
        distinct_strings(res@),
        string_set(res@) == Set::new(|t: Seq<char>| exists|i: int| 0 <= i < found@.len() && t == render_path(#[trigger] found@[i]@)),
{
    let mut res: Vec<String> = Vec::new();
    let mut i: usize = 0;
    assert(string_set(res@) =~= Set::<Seq<char>>::empty());
    while i < found.len()
        invariant
            i <= found@.len(),
            distinct_strings(res@),
            string_set(res@) == Set::new(|t: Seq<char>| exists|j: int| 0 <= j < i && t == render_path(#[trigger] found@[j]@)),
        decreases found.len() - i,
    {
        let ghost before = string_set(res@);
        let text = found[i].render();
        set_insert(&mut res, text);
        i = i + 1;
        assert(string_set(res@) =~= Set::new(|t: Seq<char>| exists|j: int| 0 <= j < i && t == render_path(#[trigger] found@[j]@))) by {
            assert forall|t: Seq<char>| (exists|j: int| 0 <= j < i && t == render_path(#[trigger] found@[j]@)) implies string_set(res@).contains(t) by {
                let j = choose|j: int| 0 <= j < i && t == render_path(#[trigger] found@[j]@);
                if j < i - 1 {
                    assert(before.contains(t));
                }
            }
        }
    }
    res
}

/// Keeping the servers whose key is among `names`, and keeping those whose
/// key is not, splits the servers between the two: every server lands in
/// exactly one of them (so the active and the inactive listings share no
/// server and miss none).
pub proof fn retained_partition(v: Seq<AbsoluteServerObject>, names: Set<Seq<char>>, by_session: bool)
    ensures
        retained(v, names, by_session, true).to_multiset().add(retained(v, names, by_session, false).to_multiset())
            == v.to_multiset(),
    decreases v.len(),
{
    broadcast use vstd::seq_lib::group_to_multiset_ensures;
    if v.len() == 0 {
        assert(retained(v, names, by_session, true) =~= Seq::<AbsoluteServerObject>::empty());
        assert(retained(v, names, by_session, false) =~= Seq::<AbsoluteServerObject>::empty());
        assert(v =~= Seq::<AbsoluteServerObject>::empty());
        assert(Seq::<AbsoluteServerObject>::empty().to_multiset() =~= Multiset::empty());
        assert(v.to_multiset() =~= Multiset::empty());
        assert(Multiset::<AbsoluteServerObject>::empty().add(Multiset::empty()) =~= Multiset::empty());
    } else {
        retained_partition(v.drop_last(), names, by_session);
        assert(v.drop_last().push(v.last()) =~= v);
        let a = retained(v.drop_last(), names, by_session, true);
        let b = retained(v.drop_last(), names, by_session, false);
        if names.contains(server_key(v.last().path@, by_session)) {
            assert(a.push(v.last()).to_multiset() =~= a.to_multiset().insert(v.last()));
            assert(a.to_multiset().insert(v.last()).add(b.to_multiset()) =~= a.to_multiset().add(b.to_multiset()).insert(v.last()));
        } else {
            assert(b.push(v.last()).to_multiset() =~= b.to_multiset().insert(v.last()));
            assert(a.to_multiset().add(b.to_multiset().insert(v.last())) =~= a.to_multiset().add(b.to_multiset()).insert(v.last()));
        }
        assert(v.drop_last().push(v.last()).to_multiset() =~= v.drop_last().to_multiset().insert(v.last()));
    }
}

} // verus!
