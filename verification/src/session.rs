//! Terminal-multiplexer sessions that run servers.
//!
//! A server runs inside a multiplexer session whose name is the server's path
//! with separators turned into dots, followed by [`SUFFIX`].  The multiplexer
//! lists its sessions one per line; this module reads those lines.
use vstd::prelude::*;
use crate::collections::{distinct_keys, distinct_strings, key_map, map_insert, set_insert, string_set};
use crate::error::Error;
use crate::paths::{render_path, views_of, ServerPath, SEPARATOR};
use crate::text::{
    lowercase, to_lowercase, trim_end, trimmed_end,
    chars_of, chars_views, contains, has_suffix, last_occurrence, lines_of, occurs_in, owned,
    replace_char, replace_chars, rfind, slice_chars, string_of, strip_suffix, is_ascii_char,
    is_ascii_text, text_lines,
};

verus! {

/// The terminal multiplexer.
pub const BASE_COMMAND: &'static str = "zellij";

/// What ends the name of every server session.
pub const SUFFIX: &'static str = ".mcserver";

/// The shell loop that counts down before a server restarts.
pub const TIMER: &'static str = "for i in {3..1}; do echo \"RESTARTING in $i seconds...\" && sleep 1; done";

/// The characters of [`SUFFIX`].
pub open spec fn suffix_view() -> Seq<char> {
    seq!['.', 'm', 'c', 's', 'e', 'r', 'v', 'e', 'r']
}

/// The characters of [`SUFFIX`].
pub fn suffix_chars() -> (res: Vec<char>)
    ensures
        res@ == suffix_view(),
{
    proof {
        reveal_strlit(".mcserver");
    }
    let v = chars_of(SUFFIX);
    assert(v@ =~= suffix_view());
    v
}

/// The session name of a server path given as text: separators become dots.
pub open spec fn session_of_text(path: Seq<char>) -> Seq<char> {
    replace_char(path, SEPARATOR, '.')
}

/// The session name of a server path given as text: separators become dots,
/// then [`SUFFIX`].
pub fn path_str_to_session(server_path: &str) -> (res: String)
    ensures
        res@ == session_of_text(server_path@) + suffix_view(),
{
    let cs = chars_of(server_path);
    let mut r = replace_chars(&cs, SEPARATOR, '.');
    let sfx = suffix_chars();
    crate::text::push_all(&mut r, &sfx);
    string_of(&r)
}

/// The session name of a server path: the path's text with separators turned
/// into dots, then [`SUFFIX`].
pub fn path_to_session(server_path: &ServerPath) -> (res: Option<String>)
    ensures
        res == Some(res->0),
        res->0@ == session_of_text(render_path(server_path@)) + suffix_view(),
{
    let text = server_path.render();
    let cs = chars_of(text.as_str());
    let mut r = replace_chars(&cs, SEPARATOR, '.');
    let sfx = suffix_chars();
    crate::text::push_all(&mut r, &sfx);
    Some(string_of(&r))
}


/// The characters `(`.
pub open spec fn open_paren_view() -> Seq<char> {
    seq!['(']
}

/// The characters `EXITED`.
pub open spec fn exited_view() -> Seq<char> {
    seq!['E', 'X', 'I', 'T', 'E', 'D']
}

/// The characters `[Created`.
pub open spec fn created_view() -> Seq<char> {
    seq!['[', 'C', 'r', 'e', 'a', 't', 'e', 'd']
}

/// A session line reports an exited session: `EXITED` appears after its last
/// `(`.
pub open spec fn line_has_exited(line: Seq<char>) -> bool {
    match last_occurrence(line, open_paren_view()) {
        Some(p) => occurs_in(line.subrange(p, line.len() as int), exited_view()),
        None => false,
    }
}

/// Cutting the session name out of the line stays inside the line and on
/// character boundaries: the name starts after the seven-character colour
/// code and ends four characters before the last `[Created`.
pub open spec fn line_indexable(line: Seq<char>) -> bool {
    match last_occurrence(line, created_view()) {
        None => true,
        Some(p) => p >= 11 && is_ascii_text(line.take(7)) && is_ascii_text(line.subrange(p - 4, p)),
    }
}

/// The server that a session line names: the session name cut out of the
/// line, when it ends with [`SUFFIX`], without it.
pub open spec fn line_server(line: Seq<char>) -> Option<Seq<char>> {
    match last_occurrence(line, created_view()) {
        None => None,
        Some(p) => {
            let name = line.subrange(7, p - 4);
            if has_suffix(name, suffix_view()) {
                Some(name.subrange(0, name.len() - suffix_view().len()))
            } else {
                None
            }
        },
    }
}

fn paren_chars() -> (res: Vec<char>)
    ensures
        res@ == open_paren_view(),
{
    let mut v: Vec<char> = Vec::new();
    v.push('(');
    assert(v@ =~= open_paren_view());
    v
}

fn exited_chars() -> (res: Vec<char>)
    ensures
        res@ == exited_view(),
{
    proof {
        reveal_strlit("EXITED");
    }
    let v = chars_of("EXITED");
    assert(v@ =~= exited_view());
    v
}

fn created_chars() -> (res: Vec<char>)
    ensures
        res@ == created_view(),
{
    proof {
        reveal_strlit("[Created");
    }
    let v = chars_of("[Created");
    assert(v@ =~= created_view());
    v
}

fn line_exited(line: &Vec<char>) -> (res: bool)
    ensures
        res == line_has_exited(line@),
{
    let paren = paren_chars();
    match rfind(line, &paren) {
        None => false,
        Some(p) => {
            let rest = slice_chars(line, p, line.len());
            let ex = exited_chars();
            contains(&rest, &ex)
        },
    }
}

fn all_ascii(v: &Vec<char>, from: usize, to: usize) -> (res: bool)
    requires
        from <= to <= v.len(),
    ensures
        res == is_ascii_text(v@.subrange(from as int, to as int)),
{
    let mut i = from;
    while i < to
        invariant
            from <= i <= to <= v.len(),
            forall|k: int| from <= k < i ==> (v@[k] as u32) < 128,
        decreases to - i,
    {
        if !is_ascii_char(v[i]) {
            assert((v@.subrange(from as int, to as int)[i - from] as u32) >= 128);
            return false;
        }
        i = i + 1;
    }
    assert forall|k: int| 0 <= k < to - from implies (v@.subrange(from as int, to as int)[k] as u32) < 128 by {
        assert(v@.subrange(from as int, to as int)[k] == v@[from + k]);
    }
    true
}

fn line_indexable_chars(line: &Vec<char>) -> (res: bool)
    ensures
        res == line_indexable(line@),
{
    let created = created_chars();
    match rfind(line, &created) {
        None => true,
        Some(p) => {
            if p < 11 {
                return false;
            }
            assert(line@.take(7) =~= line@.subrange(0, 7));
            all_ascii(line, 0, 7) && all_ascii(line, p - 4, p)
        },
    }
}

fn line_server_chars(line: &Vec<char>) -> (res: Option<Vec<char>>)
    requires
        line_indexable(line@),
    ensures
        res is Some <==> line_server(line@) is Some,
        res matches Some(r) ==> r@ == line_server(line@)->0,
{
    let created = created_chars();
    match rfind(line, &created) {
        None => None,
        Some(p) => {
            let name = slice_chars(line, 7, p - 4);
            let sfx = suffix_chars();
            strip_suffix(&name, &sfx)
        },
    }
}

/// Whether a session line reports an exited session.
pub fn session_has_exited(session_line: &str) -> (res: bool)
    ensures
        res == line_has_exited(session_line@),
{
    let l = chars_of(session_line);
    line_exited(&l)
}

/// Whether a session line reports a living session.
pub fn session_is_alive(session_line: &str) -> (res: bool)
    ensures
        res == !line_has_exited(session_line@),
{
    !session_has_exited(session_line)
}

/// Whether the server name can be cut out of a session line without leaving
/// it or splitting a character.
pub fn session_line_is_indexable(session_line: &str) -> (res: bool)
    ensures
        res == line_indexable(session_line@),
{
    let l = chars_of(session_line);
    line_indexable_chars(&l)
}

/// The server that a session line names, if the session is a server session.
pub fn session_line_to_server(session_line: &str) -> (res: Option<String>)
    requires
        line_indexable(session_line@),
    ensures
        res is Some <==> line_server(session_line@) is Some,
        res matches Some(r) ==> r@ == line_server(session_line@)->0,
{
    let l = chars_of(session_line);
    match line_server_chars(&l) {
        Some(r) => Some(string_of(&r)),
        None => None,
    }
}

/// The characters of an optional string.
pub open spec fn opt_view(o: Option<String>) -> Option<Seq<char>> {
    match o {
        Some(s) => Some(s@),
        None => None,
    }
}

/// The lines of the multiplexer's session listing; none when it has no
/// sessions.
pub open spec fn listing_lines(listing: Option<Seq<char>>) -> Seq<Seq<char>> {
    match listing {
        Some(t) => text_lines(t),
        None => Seq::empty(),
    }
}

/// Every line of the listing can be cut.
pub open spec fn listing_indexable(listing: Option<Seq<char>>) -> bool {
    forall|i: int| 0 <= i < listing_lines(listing).len() ==> line_indexable(#[trigger] listing_lines(listing)[i])
}

/// The servers of the living sessions among `lines`.
pub open spec fn alive_servers(lines: Seq<Seq<char>>) -> Set<Seq<char>> {
    Set::new(|n: Seq<char>| exists|i: int| 0 <= i < lines.len() && !line_has_exited(lines[i]) && line_server(lines[i]) == Some(n))
}

/// The servers of the exited sessions among `lines`.
pub open spec fn dead_servers(lines: Seq<Seq<char>>) -> Set<Seq<char>> {
    Set::new(|n: Seq<char>| exists|i: int| 0 <= i < lines.len() && line_has_exited(lines[i]) && line_server(lines[i]) == Some(n))
}

/// Each server of `lines`, mapped to whether its last line reports a living
/// session.
pub open spec fn living_map(lines: Seq<Seq<char>>) -> Map<Seq<char>, bool>
    decreases lines.len(),
{
    if lines.len() == 0 {
        Map::empty()
    } else {
        let m = living_map(lines.drop_last());
        match line_server(lines.last()) {
            Some(n) => m.insert(n, !line_has_exited(lines.last())),
            None => m,
        }
    }
}

/// A server has an entry in the map of living sessions exactly when it has a
/// living or an exited session; a server the map calls living has a living
/// session, and one it calls not living has an exited one.
pub proof fn living_map_agrees_with_states(lines: Seq<Seq<char>>, n: Seq<char>)
    ensures
        living_map(lines).contains_key(n) <==> (alive_servers(lines).contains(n) || dead_servers(lines).contains(n)),
        living_map(lines).contains_key(n) && living_map(lines)[n] ==> alive_servers(lines).contains(n),
        living_map(lines).contains_key(n) && !living_map(lines)[n] ==> dead_servers(lines).contains(n),
    decreases lines.len(),
{
    if lines.len() > 0 {
        let init = lines.drop_last();
        let last = lines.len() - 1;
        living_map_agrees_with_states(init, n);
        assert(lines[last] == lines.last());
        if line_server(lines.last()) == Some(n) {
            if line_has_exited(lines.last()) {
                assert(dead_servers(lines).contains(n));
            } else {
                assert(alive_servers(lines).contains(n));
            }
        } else {
            assert(living_map(lines).contains_key(n) == living_map(init).contains_key(n));
            assert(living_map(lines).contains_key(n) ==> living_map(lines)[n] == living_map(init)[n]);
            if alive_servers(init).contains(n) {
                let i = choose|i: int| 0 <= i < init.len() && !line_has_exited(init[i]) && line_server(init[i]) == Some(n);
                assert(lines[i] == init[i]);
                assert(alive_servers(lines).contains(n));
            }
            if dead_servers(init).contains(n) {
                let i = choose|i: int| 0 <= i < init.len() && line_has_exited(init[i]) && line_server(init[i]) == Some(n);
                assert(lines[i] == init[i]);
                assert(dead_servers(lines).contains(n));
            }
            if alive_servers(lines).contains(n) {
                let i = choose|i: int| 0 <= i < lines.len() && !line_has_exited(lines[i]) && line_server(lines[i]) == Some(n);
                assert(i != last);
                assert(init[i] == lines[i]);
                assert(alive_servers(init).contains(n));
            }
            if dead_servers(lines).contains(n) {
                let i = choose|i: int| 0 <= i < lines.len() && line_has_exited(lines[i]) && line_server(lines[i]) == Some(n);
                assert(i != last);
                assert(init[i] == lines[i]);
                assert(dead_servers(init).contains(n));
            }
        }
    }
}

/// No two of `lines` name the same server.
pub open spec fn servers_named_once(lines: Seq<Seq<char>>) -> bool {
    forall|i: int, j: int| 0 <= i < lines.len() && 0 <= j < lines.len() && i != j && line_server(lines[i]) is Some
        ==> #[trigger] line_server(lines[i]) != #[trigger] line_server(lines[j])
}

/// When no two lines name the same server, no server is both living and
/// exited, and the map of living sessions holds exactly the living and
/// exited servers, each mapped to whether it lives.
pub proof fn living_and_dead_are_disjoint(lines: Seq<Seq<char>>, n: Seq<char>)
    requires
        servers_named_once(lines),
    ensures
        !(alive_servers(lines).contains(n) && dead_servers(lines).contains(n)),
        living_map(lines).contains_key(n) <==> (alive_servers(lines).contains(n) || dead_servers(lines).contains(n)),
        living_map(lines).contains_key(n) ==> living_map(lines)[n] == alive_servers(lines).contains(n),
{
    living_map_agrees_with_states(lines, n);
    if alive_servers(lines).contains(n) && dead_servers(lines).contains(n) {
        let i = choose|i: int| 0 <= i < lines.len() && !line_has_exited(lines[i]) && line_server(lines[i]) == Some(n);
        let j = choose|j: int| 0 <= j < lines.len() && line_has_exited(lines[j]) && line_server(lines[j]) == Some(n);
        assert(i != j);
        assert(line_server(lines[i]) != line_server(lines[j]));
    }
}

fn listing_chars(listing: &Option<String>) -> (res: Vec<Vec<char>>)
    ensures
        chars_views(res@) == listing_lines(opt_view(*listing)),
{
    match listing {
        Some(t) => {
            let cs = chars_of(t.as_str());
            lines_of(&cs)
        },
        None => {
            let v: Vec<Vec<char>> = Vec::new();
            assert(chars_views(v@) =~= Seq::<Seq<char>>::empty());
            v
        },
    }
}

/// The servers of the sessions whose liveness is `alive`.
fn servers_with_state(listing: &Option<String>, alive: bool) -> (res: Vec<String>)
    requires
        listing_indexable(opt_view(*listing)),
    ensures
        distinct_strings(res@),
        alive ==> string_set(res@) == alive_servers(listing_lines(opt_view(*listing))),
        !alive ==> string_set(res@) == dead_servers(listing_lines(opt_view(*listing))),
{
    let lines = listing_chars(listing);
    let ghost ls = listing_lines(opt_view(*listing));
    let mut res: Vec<String> = Vec::new();
    let mut i: usize = 0;
    assert(string_set(res@) =~= Set::<Seq<char>>::empty());
    while i < lines.len()
        invariant
            i <= lines.len(),
            chars_views(lines@) == ls,
            listing_indexable(opt_view(*listing)),
            ls == listing_lines(opt_view(*listing)),
            distinct_strings(res@),
            string_set(res@) == Set::new(|n: Seq<char>| exists|k: int| 0 <= k < i
                && line_has_exited(ls[k]) == !alive && line_server(ls[k]) == Some(n)),
        decreases lines.len() - i,
    {
        let line = &lines[i];
        assert(line@ == ls[i as int]);
        let ghost before = string_set(res@);
        if line_exited(line) == !alive {
            match line_server_chars(line) {
                Some(name) => {
                    set_insert(&mut res, string_of(&name));
                },
                None => {},
            }
        }
        i = i + 1;
        assert(string_set(res@) =~= Set::new(|n: Seq<char>| exists|k: int| 0 <= k < i
                && line_has_exited(ls[k]) == !alive && line_server(ls[k]) == Some(n))) by {
            assert forall|n: Seq<char>| (exists|k: int| 0 <= k < i
                && line_has_exited(ls[k]) == !alive && line_server(ls[k]) == Some(n)) implies
                #[trigger] string_set(res@).contains(n) by {
                let k = choose|k: int| 0 <= k < i && line_has_exited(ls[k]) == !alive && line_server(ls[k]) == Some(n);
                if k < i - 1 {
                    assert(before.contains(n));
                }
            }
        }
    }
    if alive {
        assert(string_set(res@) =~= alive_servers(ls));
    } else {
        assert(string_set(res@) =~= dead_servers(ls));
    }
    res
}

/// Whether the server name can be cut out of every line of the listing.
pub fn listing_is_indexable(listing: &Option<String>) -> (res: bool)
    ensures
        res == listing_indexable(opt_view(*listing)),
{
    let lines = listing_chars(listing);
    let ghost ls = listing_lines(opt_view(*listing));
    let mut i: usize = 0;
    while i < lines.len()
        invariant
            i <= lines.len(),
            chars_views(lines@) == ls,
            ls == listing_lines(opt_view(*listing)),
            forall|j: int| 0 <= j < i ==> line_indexable(#[trigger] ls[j]),
        decreases lines.len() - i,
    {
        assert(lines@[i as int]@ == ls[i as int]);
        if !line_indexable_chars(&lines[i]) {
            return false;
        }
        i = i + 1;
    }
    true
}

/// The servers whose sessions live, given the multiplexer's listing (`None`
/// when it has no sessions); each once.
pub fn get_alive_server_sessions(listing: &Option<String>) -> (res: Vec<String>)
    requires
        listing_indexable(opt_view(*listing)),
    ensures
        distinct_strings(res@),
        string_set(res@) == alive_servers(listing_lines(opt_view(*listing))),
{
    servers_with_state(listing, true)
}

/// The servers whose sessions have exited, given the multiplexer's listing;
/// each once.
pub fn get_dead_server_sessions(listing: &Option<String>) -> (res: Vec<String>)
    requires
        listing_indexable(opt_view(*listing)),
    ensures
        distinct_strings(res@),
        string_set(res@) == dead_servers(listing_lines(opt_view(*listing))),
{
    servers_with_state(listing, false)
}

/// Each server with a session, mapped to whether its session lives; a
/// server listed twice takes the state of its last line.
pub fn get_server_sessions_to_living(listing: &Option<String>) -> (res: Vec<(String, bool)>)
    requires
        listing_indexable(opt_view(*listing)),
    ensures
        distinct_keys(res@),
        key_map(res@) == living_map(listing_lines(opt_view(*listing))),
{
    let lines = listing_chars(listing);
    let ghost ls = listing_lines(opt_view(*listing));
    let mut res: Vec<(String, bool)> = Vec::new();
    let mut i: usize = 0;
    assert(key_map(res@) =~= Map::<Seq<char>, bool>::empty());
    assert(ls.take(0) =~= Seq::<Seq<char>>::empty());
    while i < lines.len()
        invariant
            i <= lines.len(),
            chars_views(lines@) == ls,
            listing_indexable(opt_view(*listing)),
            ls == listing_lines(opt_view(*listing)),
            distinct_keys(res@),
            key_map(res@) == living_map(ls.take(i as int)),
        decreases lines.len() - i,
    {
        let line = &lines[i];
        assert(line@ == ls[i as int]);
        assert(ls.take(i + 1).drop_last() =~= ls.take(i as int));
        assert(ls.take(i + 1).last() == ls[i as int]);
        let alive = !line_exited(line);
        match line_server_chars(line) {
            Some(name) => {
                map_insert(&mut res, string_of(&name), alive);
            },
            None => {},
        }
        i = i + 1;
    }
    assert(ls.take(i as int) =~= ls);
    res
}

/// What the multiplexer's `list-sessions` run means: exit code 0 gives the
/// listing, 1 means there are no sessions, anything else is a failure.
pub fn sessions_listing_from_output(code: Option<i32>, stdout: String, stderr: Vec<u8>) -> (res: Result<Option<String>, Error>)
    ensures
        code == Some(0i32) ==> res == Ok::<Option<String>, Error>(Some(stdout)),
        code == Some(1i32) ==> res == Ok::<Option<String>, Error>(None),
        code != Some(0i32) && code != Some(1i32) ==> res == Err::<Option<String>, Error>(Error::CommandFailure { code, stderr: Some(stderr) }),
{
    match code {
        Some(0) => Ok(Some(stdout)),
        Some(1) => Ok(None),
        _ => Err(Error::CommandFailure { code, stderr: Some(stderr) }),
    }
}

/// The multiplexer arguments that delete the session of `server` (given as
/// text), with `--force` when forced.
pub fn delete_session_arguments(server: &str, force: bool) -> (res: Vec<String>)
    ensures
        force ==> views_of(res@) == seq!["delete-session"@, session_of_text(server@) + suffix_view(), "--force"@],
        !force ==> views_of(res@) == seq!["delete-session"@, session_of_text(server@) + suffix_view()],
{
    let mut res: Vec<String> = Vec::new();
    res.push(owned("delete-session"));
    res.push(path_str_to_session(server));
    if force {
        res.push(owned("--force"));
    }
    proof {
        if force {
            assert(views_of(res@) =~= seq!["delete-session"@, session_of_text(server@) + suffix_view(), "--force"@]);
        } else {
            assert(views_of(res@) =~= seq!["delete-session"@, session_of_text(server@) + suffix_view()]);
        }
    }
    res
}

/// `args` are the multiplexer arguments that delete the session of the
/// server `n` (its full session name, [`SUFFIX`] included), without forcing.
pub open spec fn deletes_session(args: Seq<String>, n: Seq<char>) -> bool {
    views_of(args) == seq!["delete-session"@, session_of_text(n) + suffix_view()]
}

/// The multiplexer commands that delete every exited server session: for
/// each such server, its name and the arguments that delete its session,
/// without forcing.
pub fn delete_all(listing: &Option<String>) -> (res: Vec<(String, Vec<String>)>)
    requires
        listing_indexable(opt_view(*listing)),
    ensures
        forall|i: int| 0 <= i < res@.len() ==> dead_servers(listing_lines(opt_view(*listing))).contains(#[trigger] res@[i].0@)
            && deletes_session(res@[i].1@, res@[i].0@),
        forall|n: Seq<char>| #[trigger] dead_servers(listing_lines(opt_view(*listing))).contains(n) ==>
            exists|i: int| 0 <= i < res@.len() && #[trigger] res@[i].0@ == n,
        forall|i: int, j: int| 0 <= i < res@.len() && 0 <= j < res@.len() && i != j ==> (#[trigger] res@[i]).0@ != (#[trigger] res@[j]).0@,
{
    let dead = get_dead_server_sessions(listing);
    let mut out: Vec<(String, Vec<String>)> = Vec::new();
    let mut i: usize = 0;
    while i < dead.len()
        invariant
            i <= dead@.len(),
            out@.len() == i,
            distinct_strings(dead@),
            forall|k: int| 0 <= k < i ==> (#[trigger] out@[k]).0@ == dead@[k]@ && deletes_session(out@[k].1@, dead@[k]@),
        decreases dead.len() - i,
    {
        let args = delete_session_arguments(dead[i].as_str(), false);
        out.push((dead[i].clone(), args));
        i = i + 1;
    }
    proof {
        assert forall|k: int| 0 <= k < out@.len() implies dead_servers(listing_lines(opt_view(*listing))).contains(#[trigger] out@[k].0@)
            && deletes_session(out@[k].1@, out@[k].0@) by {
            assert(string_set(dead@).contains(dead@[k]@));
        }
        assert forall|n: Seq<char>| #[trigger] dead_servers(listing_lines(opt_view(*listing))).contains(n) implies
            exists|k: int| 0 <= k < out@.len() && #[trigger] out@[k].0@ == n by {
            assert(string_set(dead@).contains(n));
            let k = choose|k: int| 0 <= k < dead@.len() && dead@[k]@ == n;
            assert(out@[k].0@ == n);
        }
    }
    out
}

/// The multiplexer arguments that act on `session`: `--session`, the
/// session, `action`, the action and its argument.
pub fn session_write_arguments(session: &str, mode: &str, chars: &str) -> (res: Vec<String>)
    ensures
        views_of(res@) == seq!["--session"@, session@, "action"@, mode@, chars@],
{
    let mut res: Vec<String> = Vec::new();
    res.push(owned("--session"));
    res.push(owned(session));
    res.push(owned("action"));
    res.push(owned(mode));
    res.push(owned(chars));
    assert(views_of(res@) =~= seq!["--session"@, session@, "action"@, mode@, chars@]);
    res
}

/// The two multiplexer commands that type `chars` into `session` and press
/// return: `write-chars` with the text, then `write` with the carriage
/// return's code, 13.
pub fn write_line_arguments(session: &str, chars: &str) -> (res: (Vec<String>, Vec<String>))
    ensures
        views_of(res.0@) == seq!["--session"@, session@, "action"@, "write-chars"@, chars@],
        views_of(res.1@) == seq!["--session"@, session@, "action"@, "write"@, "13"@],
{
    (session_write_arguments(session, "write-chars", chars), session_write_arguments(session, "write", "13"))
}

/// What the answer to "delete all sessions?" decides: `y` or `yes` confirm,
/// `n` or `no` cancel, in any case and with trailing whitespace; anything
/// else asks again (`None`).
pub fn delete_all_confirmation(response: &str) -> (res: Option<bool>)
    ensures
        ({
            let a = lowercase(trimmed_end(response@));
            &&& (a == "y"@ || a == "yes"@) ==> res == Some(true)
            &&& !(a == "y"@ || a == "yes"@) && (a == "n"@ || a == "no"@) ==> res == Some(false)
            &&& !(a == "y"@ || a == "yes"@ || a == "n"@ || a == "no"@) ==> res is None
        }),
{
    let t = trim_end(response);
    let a = to_lowercase(t.as_str());
    if a == owned("y") || a == owned("yes") {
        Some(true)
    } else if a == owned("n") || a == owned("no") {
        Some(false)
    } else {
        None
    }
}

} // verus!
