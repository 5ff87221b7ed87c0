//! What the command line chooses among: platforms, listing filters and the
//! subcommands' plain choices.
use vstd::prelude::*;
use crate::collections::{set_contains, string_set};
use crate::config::Config;
use crate::error::Error;
use crate::paths::{parse_path, render_path, strip_path_prefix, PathView, ServerPath, SEPARATOR};
use crate::server_id::{Location, ServerId};
use crate::session::session_of_text;
use crate::text::{chars_of, has_prefix, owned, replace_chars, starts_with, string_of};

verus! {

/// Which servers a listing shows.
#[derive(Debug, Clone, Copy, PartialEq, Eq)]
pub struct ListingArguments {
    /// Only servers whose session lives.
    pub active: bool,
    /// Only servers without a living session.
    pub inactive: bool,
    /// Servers whose session has exited.
    pub dead: bool,
}

/// What to do with the configuration.
#[derive(Debug, Clone, Copy, PartialEq, Eq)]
pub enum ConfigType {
    /// Open it in an editor.
    Edit,
}

/// Reading or changing the default server.
#[derive(Debug)]
pub enum DefaultCommands {
    Get,
    Change { server: String },
}

/// Making a template from a server, or a server from a template.
#[derive(Debug)]
#[allow(inconsistent_fields)]
pub enum TemplateCommands {
    New { server: ServerId },
    From { template: ServerId, server: Option<ServerId> },
}

/// The server software a server runs.
#[derive(Debug, Clone, Copy, PartialEq, Eq, PartialOrd, Ord)]
pub enum Platform {
    Fabric,
    Forge,
    Neoforge,
    Paper,
    Purpur,
}

/// The name of a platform, in lower case.
pub open spec fn platform_name(p: Platform) -> Seq<char> {
    match p {
        Platform::Fabric => seq!['f', 'a', 'b', 'r', 'i', 'c'],
        Platform::Forge => seq!['f', 'o', 'r', 'g', 'e'],
        Platform::Neoforge => seq!['n', 'e', 'o', 'f', 'o', 'r', 'g', 'e'],
        Platform::Paper => seq!['p', 'a', 'p', 'e', 'r'],
        Platform::Purpur => seq!['p', 'u', 'r', 'p', 'u', 'r'],
    }
}

impl Platform {
    /// The name of the platform, in lower case, as it prints.
    pub fn name(&self) -> (res: String)
        ensures
            res@ == platform_name(*self),
    {
        match self {
            Platform::Fabric => {
                let s = owned("fabric");
                proof {
                    reveal_strlit("fabric");
                    assert(s@ =~= platform_name(*self));
                }
                s
            },
            Platform::Forge => {
                let s = owned("forge");
                proof {
                    reveal_strlit("forge");
                    assert(s@ =~= platform_name(*self));
                }
                s
            },
            Platform::Neoforge => {
                let s = owned("neoforge");
                proof {
                    reveal_strlit("neoforge");
                    assert(s@ =~= platform_name(*self));
                }
                s
            },
            Platform::Paper => {
                let s = owned("paper");
                proof {
                    reveal_strlit("paper");
                    assert(s@ =~= platform_name(*self));
                }
                s
            },
            Platform::Purpur => {
                let s = owned("purpur");
                proof {
                    reveal_strlit("purpur");
                    assert(s@ =~= platform_name(*self));
                }
                s
            },
        }
    }
}

/// `res` is what checking the server at `path` against the sessions in
/// `whitelist` (server names as session lines give them) gives, when the
/// servers directory is `d`: its name below `d` when its dotted path is in
/// the list, nothing otherwise.
pub open spec fn validated_result(path: PathView, whitelist: Set<Seq<char>>, d: PathView, res: Result<Option<String>, Error>) -> bool {
    if whitelist.contains(session_of_text(render_path(path))) {
        match strip_path_prefix(path, d) {
            Some(r) => res matches Ok(Some(t)) && t@ == render_path(r),
            None => res == Err::<Option<String>, Error>(Error::StripPrefix),
        }
    } else {
        res == Ok::<Option<String>, Error>(None)
    }
}

/// The name, below the servers directory, of the server at `path` when its
/// dotted path (its session's name without the suffix) is among
/// `session_whitelist`; nothing otherwise.
pub fn validate_server_path(
    path: &ServerPath,
    session_whitelist: &Vec<String>,
    config: &Config,
    location: &Location,
) -> (res: Result<Option<String>, Error>)
    ensures
        !string_set(session_whitelist@).contains(session_of_text(render_path(path@))) ==>
            res == Ok::<Option<String>, Error>(None),
        config.servers_directory.expansion() is Some ==>
            validated_result(path@, string_set(session_whitelist@), parse_path(config.servers_directory.expansion()->0), res),
        string_set(session_whitelist@).contains(session_of_text(render_path(path@)))
            && config.servers_directory.expansion() is None ==> (res matches Err(e) && e == config.servers_directory.lookup_error()),
{
    let server_id = ServerId::AbsolutePath(path.clone_path());
    let text = path.render();
    let cs = chars_of(text.as_str());
    let dotted = string_of(&replace_chars(&cs, SEPARATOR, '.'));
    if set_contains(session_whitelist, &dotted) {
        let name = server_id.try_as_str_relative(config, location)?;
        Ok(Some(name))
    } else {
        Ok(None)
    }
}

/// The completion that the server at `path` offers for `current`, when the
/// servers directory is `d`: its name below `d`, when its dotted path is
/// among `whitelist` and the name starts with `current`.
pub open spec fn completion_of(path: PathView, whitelist: Set<Seq<char>>, d: PathView, current: Seq<char>) -> Option<Seq<char>> {
    if whitelist.contains(session_of_text(render_path(path))) {
        match strip_path_prefix(path, d) {
            Some(r) => if has_prefix(render_path(r), current) { Some(render_path(r)) } else { None },
            None => None,
        }
    } else {
        None
    }
}

/// The completions that the servers at `paths` offer, in order.
pub open spec fn completions(paths: Seq<ServerPath>, whitelist: Set<Seq<char>>, d: PathView, current: Seq<char>) -> Seq<Seq<char>>
    decreases paths.len(),
{
    if paths.len() == 0 {
        Seq::empty()
    } else {
        let r = completions(paths.drop_last(), whitelist, d, current);
        match completion_of(paths.last()@, whitelist, d, current) {
            Some(n) => r.push(n),
            None => r,
        }
    }
}

/// The completions for `current` among the servers found: the names of
/// those that [`validate_server_path`] accepts and that start with it.
pub fn completion_candidates(
    found: &Vec<ServerPath>,
    session_whitelist: &Vec<String>,
    config: &Config,
    location: &Location,
    current: &str,
) -> (res: Vec<String>)
    ensures
        forall|i: int| 0 <= i < res@.len() ==> has_prefix(#[trigger] res@[i]@, current@),
        config.servers_directory.expansion() is Some ==> crate::paths::views_of(res@) == completions(
            found@, string_set(session_whitelist@), parse_path(config.servers_directory.expansion()->0), current@),
        config.servers_directory.expansion() is None ==> res@.len() == 0,
{
    let prefix = chars_of(current);
    let mut res: Vec<String> = Vec::new();
    let mut i: usize = 0;
    let ghost d = parse_path(config.servers_directory.expansion()->0);
    let ghost wl = string_set(session_whitelist@);
    assert(found@.take(0) =~= Seq::<ServerPath>::empty());
    while i < found.len()
        invariant
            i <= found@.len(),
            prefix@ == current@,
            d == parse_path(config.servers_directory.expansion()->0),
            wl == string_set(session_whitelist@),
            forall|k: int| 0 <= k < res@.len() ==> has_prefix(#[trigger] res@[k]@, current@),
            config.servers_directory.expansion() is None ==> res@.len() == 0,
            config.servers_directory.expansion() is Some ==>
                crate::paths::views_of(res@) == completions(found@.take(i as int), wl, d, current@),
        decreases found.len() - i,
    {
        let r = validate_server_path(&found[i], session_whitelist, config, location);
        let ghost gr = r;
        let ghost before = res@;
        proof {
            assert(found@.take(i + 1).drop_last() =~= found@.take(i as int));
            assert(found@.take(i + 1).last() == found@[i as int]);
        }
        if let Ok(Some(name)) = r {
            let name_chars = chars_of(name.as_str());
            if starts_with(&name_chars, &prefix) {
                res.push(name);
                proof {
                    crate::paths::lemma_views_push(before, name);
                    assert forall|k: int| 0 <= k < res@.len() implies has_prefix(#[trigger] res@[k]@, current@) by {
                        if k < before.len() {
                            assert(res@[k] == before[k]);
                        }
                    }
                }
            }
        }
        i = i + 1;
    }
    proof {
        assert(found@.take(i as int) =~= found@);
    }
    res
}

} // verus!
