//! How a server is named on the command line, and where that name leads.
//!
//! A server is named either by text relative to the servers directory (`.`
//! standing for the server the working directory lies in), or by a path.
//! What the environment says (the working directory, and the nearest
//! directory above it that holds a server's metadata) is read by the caller
//! and handed over as a [`Location`].
use vstd::prelude::*;
use crate::collections::{key_map, map_get};
use crate::config::Config;
use crate::error::{Error, InvalidServersDirectoryError};
use crate::paths::{join_path, parent_path, parse_path, path_wf, render_path, strip_path_prefix, PathView, ServerPath, SEPARATOR};
use crate::session::{session_of_text, suffix_chars, suffix_view, SUFFIX};
use crate::text::{chars_of, has_suffix, owned, push_all, replace_char, replace_chars, string_of, strip_suffix};

verus! {

/// Why no server directory was found above the working directory.
#[derive(Debug)]
pub enum SearchFailure {
    /// Reading the working directory, or looking for a metadata directory,
    /// failed with this message.
    Io(String),
    /// The search reached this path, which has no parent.
    MissingParent(ServerPath),
}

impl SearchFailure {
    /// `e` is the error that this failure is reported as.
    pub open spec fn reports(self, e: Error) -> bool {
        match self {
            SearchFailure::Io(m) => e matches Error::Io(n) && n@ == m@,
            SearchFailure::MissingParent(p) => e matches Error::InvalidServersDirectory(
                InvalidServersDirectoryError::MissingParent(n),
            ) && n@ == render_path(p@),
        }
    }

    /// The error that this failure is reported as.
    pub fn to_error(&self) -> (e: Error)
        ensures
            self.reports(e),
    {
        match self {
            SearchFailure::Io(m) => Error::Io(m.clone()),
            SearchFailure::MissingParent(p) => Error::InvalidServersDirectory(
                InvalidServersDirectoryError::MissingParent(p.render()),
            ),
        }
    }
}

/// What the environment says of where the program runs.
#[derive(Debug)]
pub struct Location {
    /// The working directory, or the message of the failure to read it.
    pub current_dir: Result<ServerPath, String>,
    /// The nearest directory, from the working directory up, that holds a
    /// metadata directory, as [`search_step`] finds it.
    pub enclosing_server: Result<ServerPath, SearchFailure>,
}

/// One step of the search for the server directory around the working
/// directory.
#[derive(Debug)]
pub enum SearchStep {
    /// This directory holds a metadata directory: the search ends here.
    Found(ServerPath),
    /// Look at this directory next.
    Up(ServerPath),
    /// The search ends without a server directory.
    Failed(SearchFailure),
}

/// The search for the server directory, at `path`, whose metadata directory
/// exists or not: found, or go up to the parent, or fail at the top.
pub fn search_step(path: ServerPath, has_metadata: bool) -> (res: SearchStep)
    ensures
        has_metadata ==> res == SearchStep::Found(path),
        !has_metadata && path@.parts.len() > 0 ==> (res matches SearchStep::Up(p) && p@ == parent_path(path@)),
        !has_metadata && path@.parts.len() == 0 ==> res == SearchStep::Failed(SearchFailure::MissingParent(path)),
{
    if has_metadata {
        return SearchStep::Found(path);
    }
    if path.parts.len() == 0 {
        return SearchStep::Failed(SearchFailure::MissingParent(path));
    }
    let mut p = path;
    p.pop();
    SearchStep::Up(p)
}

/// A server, as the command line names it.
#[derive(Debug, Clone)]
pub enum ServerId {
    /// Text relative to the servers directory; `.` is the server around the
    /// working directory.
    Str(String),
    /// A path.
    AbsolutePath(ServerPath),
}

/// The characters `.`.
pub open spec fn here() -> Seq<char> {
    seq!['.']
}

/// `res` is the server directory around the working directory, given that
/// the servers directory is `d`: the search's failure, or the directory it
/// found, which must lie in `d`.
pub open spec fn enclosing_dir_result(loc: Location, d: PathView, res: Result<ServerPath, Error>) -> bool {
    match loc.enclosing_server {
        Err(f) => res matches Err(e) && f.reports(e),
        Ok(p) => if strip_path_prefix(p@, d) is Some {
            res matches Ok(q) && q@ == p@
        } else {
            res matches Err(Error::InvalidServerString(s)) && s@ == render_path(p@)
        },
    }
}

/// `res` is the working directory relative to the servers directory `d`.
pub open spec fn relative_dir_result(loc: Location, d: PathView, res: Result<ServerPath, Error>) -> bool {
    match loc.current_dir {
        Err(m) => res matches Err(Error::Io(n)) && n@ == m@,
        Ok(c) => match strip_path_prefix(c@, d) {
            Some(r) => res matches Ok(q) && q@ == r,
            None => res == Err::<ServerPath, Error>(Error::StripPrefix),
        },
    }
}

/// The text of a path result.
pub open spec fn rendered(res: Result<ServerPath, Error>, out: Result<String, Error>) -> bool {
    match res {
        Ok(p) => out matches Ok(s) && s@ == render_path(p@),
        Err(e) => out == Err::<String, Error>(e),
    }
}

/// The server directory around the working directory, given the servers
/// directory.
pub fn enclosing_dir_in(servers: &ServerPath, location: &Location) -> (res: Result<ServerPath, Error>)
    ensures
        enclosing_dir_result(*location, servers@, res),
{
    match &location.enclosing_server {
        Err(f) => Err(f.to_error()),
        Ok(p) => {
            if p.starts_with(servers) {
                Ok(p.clone_path())
            } else {
                Err(Error::InvalidServerString(p.render()))
            }
        },
    }
}

/// The server directory around the working directory; it must lie in the
/// servers directory.
pub fn current_absolute_server_dir(config: &Config, location: &Location) -> (res: Result<ServerPath, Error>)
    ensures
        location.enclosing_server matches Err(f) ==> (res matches Err(e) && f.reports(e)),
        location.enclosing_server is Ok ==> (res matches Err(e) && e is ShellexpandLookup)
            || exists|d: PathView| #[trigger] enclosing_dir_result(*location, d, res),
        config.servers_directory.expansion() is Some ==>
            enclosing_dir_result(*location, parse_path(config.servers_directory.expansion()->0), res),
        location.enclosing_server is Ok && config.servers_directory.expansion() is None ==>
            (res matches Err(e) && e == config.servers_directory.lookup_error()),
{
    if let Err(f) = &location.enclosing_server {
        return Err(f.to_error());
    }
    let servers = config.servers_directory.expanded_path()?;
    let res = enclosing_dir_in(&servers, location);
    assert(enclosing_dir_result(*location, servers@, res));
    res
}

/// The working directory relative to the servers directory, given the
/// servers directory.
pub fn relative_dir_in(servers: &ServerPath, location: &Location) -> (res: Result<ServerPath, Error>)
    ensures
        relative_dir_result(*location, servers@, res),
{
    match &location.current_dir {
        Err(m) => Err(Error::Io(m.clone())),
        Ok(c) => match c.strip_prefix(servers) {
            Some(r) => Ok(r),
            None => Err(Error::StripPrefix),
        },
    }
}

/// The working directory relative to the servers directory.
pub fn current_relative_server_dir(config: &Config, location: &Location) -> (res: Result<ServerPath, Error>)
    ensures
        location.current_dir matches Err(m) ==> (res matches Err(Error::Io(n)) && n@ == m@),
        location.current_dir is Ok ==> (res matches Err(e) && e is ShellexpandLookup)
            || exists|d: PathView| #[trigger] relative_dir_result(*location, d, res),
        config.servers_directory.expansion() is Some ==>
            relative_dir_result(*location, parse_path(config.servers_directory.expansion()->0), res),
        location.current_dir is Ok && config.servers_directory.expansion() is None ==>
            (res matches Err(e) && e == config.servers_directory.lookup_error()),
{
    if let Err(m) = &location.current_dir {
        return Err(Error::Io(m.clone()));
    }
    let servers = config.servers_directory.expanded_path()?;
    let res = relative_dir_in(&servers, location);
    assert(relative_dir_result(*location, servers@, res));
    res
}

/// Whether `s` is the text `.`.
fn is_here(s: &String) -> (res: bool)
    ensures
        res == (s@ == here()),
{
    let dot = owned(".");
    proof {
        reveal_strlit(".");
        assert(dot@ =~= here());
    }
    *s == dot
}

impl ServerId {
    /// The server named by `s`.
    pub fn from_str(s: &str) -> (res: ServerId)
        ensures
            res matches ServerId::Str(t) && t@ == s@,
    {
        ServerId::Str(owned(s))
    }

    /// The server whose session is `session`: the name without [`SUFFIX`],
    /// dots turned into separators; none for a name without the suffix.
    pub fn from_session(session: String) -> (res: Option<ServerId>)
        ensures
            res is Some <==> has_suffix(session@, suffix_view()),
            res matches Some(id) ==> id matches ServerId::Str(t) && t@ == replace_char(
                session@.subrange(0, session@.len() - suffix_view().len()),
                '.',
                SEPARATOR,
            ),
    {
        let cs = chars_of(session.as_str());
        let sfx = suffix_chars();
        match strip_suffix(&cs, &sfx) {
            Some(stem) => {
                let r = replace_chars(&stem, '.', SEPARATOR);
                Some(ServerId::Str(string_of(&r)))
            },
            None => None,
        }
    }

    /// The server named by the environment variable's value.
    pub fn from_var(var: String) -> (res: ServerId)
        ensures
            res == ServerId::Str(var),
    {
        ServerId::Str(var)
    }

    /// The name as given: the text, or the path's text.
    pub open spec fn unresolved(self) -> Seq<char> {
        match self {
            ServerId::Str(s) => s@,
            ServerId::AbsolutePath(p) => render_path(p@),
        }
    }

    /// The name as given, as text.
    pub fn try_as_str_unresolved(&self) -> (res: Result<String, Error>)
        ensures
            res matches Ok(s) && s@ == self.unresolved(),
    {
        match self {
            ServerId::Str(s) => Ok(s.clone()),
            ServerId::AbsolutePath(p) => Ok(p.render()),
        }
    }

    /// The session of the server: the name as given, separators turned into
    /// dots, then [`SUFFIX`].
    pub fn try_as_session(&self) -> (res: Result<String, Error>)
        ensures
            res matches Ok(s) && s@ == session_of_text(self.unresolved()) + suffix_view(),
    {
        let text = self.try_as_str_unresolved()?;
        let cs = chars_of(text.as_str());
        let mut r = replace_chars(&cs, SEPARATOR, '.');
        let sfx = suffix_chars();
        push_all(&mut r, &sfx);
        Ok(string_of(&r))
    }

    /// `res` is the server's directory, given that the servers directory is
    /// `d`.
    pub open spec fn absolute_path_result(self, loc: Location, d: PathView, res: Result<ServerPath, Error>) -> bool {
        match self {
            ServerId::Str(s) => if s@ == here() {
                enclosing_dir_result(loc, d, res)
            } else {
                res matches Ok(p) && p@ == join_path(d, parse_path(s@))
            },
            ServerId::AbsolutePath(p) => res matches Ok(q) && q@ == p@,
        }
    }

    /// The server's directory, given the servers directory: `.` is the
    /// server around the working directory, other text is joined to the
    /// servers directory, a path is itself.
    pub fn absolute_path_in(&self, servers: &ServerPath, location: &Location) -> (res: Result<ServerPath, Error>)
        ensures
            self.absolute_path_result(*location, servers@, res),
    {
        match self {
            ServerId::Str(s) => {
                if is_here(s) {
                    enclosing_dir_in(servers, location)
                } else {
                    Ok(servers.join_str(s.as_str()))
                }
            },
            ServerId::AbsolutePath(p) => Ok(p.clone_path()),
        }
    }

    /// Finding the server's directory needs the servers directory: it is
    /// named by text other than `.`, or it is `.` and the server around the
    /// working directory was found.
    pub open spec fn fails_without_expansion(self, loc: Location) -> bool {
        match self {
            ServerId::Str(s) => s@ != here() || loc.enclosing_server is Ok,
            ServerId::AbsolutePath(_) => false,
        }
    }

    /// Finding the server's name below the servers directory needs the
    /// servers directory: it is a path, or `.` with the working directory
    /// known.
    pub open spec fn fails_without_relative_expansion(self, loc: Location) -> bool {
        match self {
            ServerId::Str(s) => s@ == here() && loc.current_dir is Ok,
            ServerId::AbsolutePath(_) => true,
        }
    }

    /// The server's directory.
    pub fn try_as_absolute_path(&self, config: &Config, location: &Location) -> (res: Result<ServerPath, Error>)
        ensures
            self matches ServerId::AbsolutePath(p) ==> (res matches Ok(q) && q@ == p@),
            (res matches Err(e) && e is ShellexpandLookup)
                || exists|d: PathView| #[trigger] self.absolute_path_result(*location, d, res),
            config.servers_directory.expansion() is Some ==>
                self.absolute_path_result(*location, parse_path(config.servers_directory.expansion()->0), res),
            self.fails_without_expansion(*location) && config.servers_directory.expansion() is None ==>
                (res matches Err(e) && e == config.servers_directory.lookup_error()),
            self matches ServerId::Str(s) && s@ == here() ==>
                (location.enclosing_server matches Err(f) ==> (res matches Err(e) && f.reports(e))),
    {
        match self {
            ServerId::Str(s) => {
                if is_here(s) {
                    let res = current_absolute_server_dir(config, location);
                    proof {
                        if location.enclosing_server is Err {
                            let d = parse_path(config.servers_directory.expansion()->0);
                            assert(self.absolute_path_result(*location, d, res));
                        } else if !(res is Err && res->Err_0 is ShellexpandLookup) {
                            let d = choose|d: PathView| #[trigger] enclosing_dir_result(*location, d, res);
                            assert(self.absolute_path_result(*location, d, res));
                        }
                    }
                    res
                } else {
                    let servers = config.servers_directory.expanded_path()?;
                    let res = Ok(servers.join_str(s.as_str()));
                    assert(self.absolute_path_result(*location, servers@, res));
                    res
                }
            },
            ServerId::AbsolutePath(p) => {
                let res = Ok(p.clone_path());
                assert(self.absolute_path_result(*location, p@, res));
                res
            },
        }
    }

    /// `res` is the server's name relative to the servers directory, given
    /// that the servers directory is `d`.
    pub open spec fn relative_str_result(self, loc: Location, d: PathView, res: Result<String, Error>) -> bool {
        match self {
            ServerId::Str(s) => if s@ == here() {
                exists|r: Result<ServerPath, Error>| #[trigger] relative_dir_result(loc, d, r) && rendered(r, res)
            } else {
                res matches Ok(t) && t@ == s@
            },
            ServerId::AbsolutePath(p) => match strip_path_prefix(p@, d) {
                Some(r) => res matches Ok(t) && t@ == render_path(r),
                None => res == Err::<String, Error>(Error::StripPrefix),
            },
        }
    }

    /// The server's name relative to the servers directory, given the
    /// servers directory.
    pub fn relative_str_in(&self, servers: &ServerPath, location: &Location) -> (res: Result<String, Error>)
        ensures
            self.relative_str_result(*location, servers@, res),
    {
        match self {
            ServerId::Str(s) => {
                if is_here(s) {
                    let r = relative_dir_in(servers, location);
                    let ghost rr = r;
                    let res = match r {
                        Ok(p) => Ok(p.render()),
                        Err(e) => Err(e),
                    };
                    assert(relative_dir_result(*location, servers@, rr) && rendered(rr, res));
                    res
                } else {
                    Ok(s.clone())
                }
            },
            ServerId::AbsolutePath(p) => match p.strip_prefix(servers) {
                Some(r) => Ok(r.render()),
                None => Err(Error::StripPrefix),
            },
        }
    }

    /// The server's name relative to the servers directory: `.` is the
    /// working directory relative to it, other text is itself, a path loses
    /// the servers directory in front.
    pub fn try_as_str_relative(&self, config: &Config, location: &Location) -> (res: Result<String, Error>)
        ensures
            (res matches Err(e) && e is ShellexpandLookup)
                || exists|d: PathView| #[trigger] self.relative_str_result(*location, d, res),
            config.servers_directory.expansion() is Some ==>
                self.relative_str_result(*location, parse_path(config.servers_directory.expansion()->0), res),
            self matches ServerId::Str(s) ==> (s@ != here() ==> (res matches Ok(t) && t@ == s@)),
            self matches ServerId::Str(s) && s@ == here() ==>
                (location.current_dir matches Err(m) ==> (res matches Err(Error::Io(n)) && n@ == m@)),
            self.fails_without_relative_expansion(*location) && config.servers_directory.expansion() is None ==>
                (res matches Err(e) && e == config.servers_directory.lookup_error()),
    {
        match self {
            ServerId::Str(s) => {
                if is_here(s) {
                    let r = current_relative_server_dir(config, location);
                    let ghost rr = r;
                    let res = match r {
                        Ok(p) => Ok(p.render()),
                        Err(e) => Err(e),
                    };
                    proof {
                        if location.current_dir is Err {
                            let d = parse_path(config.servers_directory.expansion()->0);
                            assert(relative_dir_result(*location, d, rr) && rendered(rr, res));
                            assert(self.relative_str_result(*location, d, res));
                        } else if rr matches Ok(_) {
                            let d = choose|d: PathView| #[trigger] relative_dir_result(*location, d, rr);
                            assert(relative_dir_result(*location, d, rr) && rendered(rr, res));
                            assert(self.relative_str_result(*location, d, res));
                        } else if !(rr matches Err(e) && e is ShellexpandLookup) {
                            let d = choose|d: PathView| #[trigger] relative_dir_result(*location, d, rr);
                            assert(relative_dir_result(*location, d, rr) && rendered(rr, res));
                            assert(self.relative_str_result(*location, d, res));
                        }
                        if config.servers_directory.expansion() is Some {
                            let d = parse_path(config.servers_directory.expansion()->0);
                            assert(relative_dir_result(*location, d, rr) && rendered(rr, res));
                        }
                    }
                    res
                } else {
                    let res = Ok(s.clone());
                    assert(self.relative_str_result(*location, parse_path(s@), res));
                    res
                }
            },
            ServerId::AbsolutePath(_) => {
                let servers = config.servers_directory.expanded_path()?;
                let res = self.relative_str_in(&servers, location);
                assert(self.relative_str_result(*location, servers@, res));
                res
            },
        }
    }

    /// `res` is the text of the server's directory, given that the servers
    /// directory is `d`.
    pub open spec fn absolute_str_result(self, loc: Location, d: PathView, res: Result<String, Error>) -> bool {
        exists|r: Result<ServerPath, Error>| #[trigger] self.absolute_path_result(loc, d, r) && rendered(r, res)
    }

    /// The text of the server's directory.
    pub fn try_as_str_absolute(&self, config: &Config, location: &Location) -> (res: Result<String, Error>)
        ensures
            self matches ServerId::AbsolutePath(p) ==> (res matches Ok(t) && t@ == render_path(p@)),
            (res matches Err(e) && e is ShellexpandLookup)
                || exists|d: PathView| #[trigger] self.absolute_str_result(*location, d, res),
            config.servers_directory.expansion() is Some ==>
                self.absolute_str_result(*location, parse_path(config.servers_directory.expansion()->0), res),
            self.fails_without_expansion(*location) && config.servers_directory.expansion() is None ==>
                (res matches Err(e) && e == config.servers_directory.lookup_error()),
            self matches ServerId::Str(s) && s@ == here() ==>
                (location.enclosing_server matches Err(f) ==> (res matches Err(e) && f.reports(e))),
    {
        let r = self.try_as_absolute_path(config, location);
        let ghost rr = r;
        let res = match r {
            Ok(p) => Ok(p.render()),
            Err(e) => Err(e),
        };
        proof {
            if !(rr matches Err(e) && e is ShellexpandLookup) {
                let d = choose|d: PathView| #[trigger] self.absolute_path_result(*location, d, rr);
                assert(self.absolute_path_result(*location, d, rr) && rendered(rr, res));
                assert(self.absolute_str_result(*location, d, res));
            }
            if config.servers_directory.expansion() is Some {
                let d = parse_path(config.servers_directory.expansion()->0);
                assert(self.absolute_path_result(*location, d, rr) && rendered(rr, res));
            }
        }
        res
    }
}

/// A server name that may be missing.
pub trait ServerOptionExt: Sized {
    /// The server, or else the one that the alias `default` names.
    fn try_unwrap_or_fallback(self, config: &Config) -> (res: Result<ServerId, Error>)
        requires
            config.wf(),
    ;
}

impl ServerOptionExt for Option<ServerId> {
    /// The server, or else the one that the alias `default` names; fails
    /// when there is neither.
    fn try_unwrap_or_fallback(self, config: &Config) -> (res: Result<ServerId, Error>)
        ensures
            self matches Some(id) ==> res == Ok::<ServerId, Error>(id),
            self is None && key_map(config.aliases@).contains_key(default_alias()) ==>
                res == Ok::<ServerId, Error>(ServerId::Str(key_map(config.aliases@)[default_alias()])),
            self is None && !key_map(config.aliases@).contains_key(default_alias()) ==>
                res == Err::<ServerId, Error>(Error::NoDefaultServer),
    {
        if let Some(server) = self {
            return Ok(server);
        }
        proof {
            reveal_strlit("default");
            assert("default"@ =~= default_alias());
        }
        match map_get(&config.aliases, "default") {
            Some(name) => Ok(ServerId::Str(name.clone())),
            None => Err(Error::NoDefaultServer),
        }
    }
}

/// The characters `default`.
pub open spec fn default_alias() -> Seq<char> {
    seq!['d', 'e', 'f', 'a', 'u', 'l', 't']
}

/// The server that a session names is the server the session was named
/// after, for names without dots: `from_session` undoes `try_as_session`.
pub proof fn session_name_round_trip(name: Seq<char>)
    requires
        !name.contains('.'),
    ensures
        ({
            let session = session_of_text(name) + suffix_view();
            &&& has_suffix(session, suffix_view())
            &&& replace_char(session.subrange(0, session.len() - suffix_view().len()), '.', SEPARATOR) == name
        }),
{
    let session = session_of_text(name) + suffix_view();
    assert(session.subrange(session.len() - suffix_view().len(), session.len() as int) =~= suffix_view());
    assert(session.subrange(0, session.len() - suffix_view().len()) =~= session_of_text(name));
    assert forall|i: int| 0 <= i < name.len() implies replace_char(session_of_text(name), '.', SEPARATOR)[i] == name[i] by {
        if name[i] == '.' {
            assert(name.contains('.'));
        }
    }
    assert(replace_char(session_of_text(name), '.', SEPARATOR) =~= name);
}

/// A server found below the servers directory `d`, named by its name below
/// `d`, resolves to its own directory again.
pub proof fn relative_name_resolves_back(p: PathView, d: PathView, name: String, loc: Location, r: Result<ServerPath, Error>)
    requires
        path_wf(p),
        strip_path_prefix(p, d) is Some,
        name@ == render_path(strip_path_prefix(p, d)->0),
        name@ != here(),
        ServerId::Str(name).absolute_path_result(loc, d, r),
    ensures
        r matches Ok(q) && q@ == p,
{
    crate::paths::relative_name_joins_back(p, d);
}

/// For a server not named `.`, its name below the servers directory `d`,
/// joined back onto `d`, is its directory: what `try_as_str_relative` gives,
/// joined to `d`, is what `try_as_absolute_path` gives.
pub proof fn relative_name_joins_to_absolute(id: ServerId, loc: Location, d: PathView, a: ServerPath, r: String)
    requires
        !(id matches ServerId::Str(s) && s@ == here()),
        path_wf(a@),
        id.absolute_path_result(loc, d, Ok::<ServerPath, Error>(a)),
        id.relative_str_result(loc, d, Ok::<String, Error>(r)),
    ensures
        join_path(d, parse_path(r@)) == a@,
{
    match id {
        ServerId::Str(s) => {},
        ServerId::AbsolutePath(p) => {
            crate::paths::relative_name_joins_back(p@, d);
        },
    }
}

} // verus!
