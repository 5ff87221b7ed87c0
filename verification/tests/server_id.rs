use mcserver::config::{Config, ServersDirectory};
use mcserver::error::{Error, InvalidServersDirectoryError};
use mcserver::paths::ServerPath;
use mcserver::server_id::{search_step, Location, SearchFailure, SearchStep, ServerId, ServerOptionExt};

fn config() -> Config {
    Config {
        default_java_args: vec![],
        nogui: true,
        servers_directory: ServersDirectory::from("/srv/mc".to_string()),
        aliases: vec![("default".to_string(), "survival".to_string())],
        rcon: vec![],
    }
}

fn location(cwd: &str, enclosing: Result<&str, SearchFailure>) -> Location {
    Location { current_dir: Ok(ServerPath::parse(cwd)), enclosing_server: enclosing.map(ServerPath::parse) }
}

fn text(id: &ServerId) -> String {
    match id {
        ServerId::Str(s) => s.clone(),
        ServerId::AbsolutePath(p) => format!("path:{}", p.render()),
    }
}

#[test]
fn ids_from_sessions() {
    assert_eq!(ServerId::from_session("a.b.mcserver".to_string()).map(|i| text(&i)), Some("a/b".to_string()));
    assert!(ServerId::from_session("zellij-session".to_string()).is_none());
    assert_eq!(text(&ServerId::from_var("x".to_string())), "x");
    assert_eq!(text(&ServerId::from_str("y")), "y");
}

#[test]
fn ids_as_text_and_sessions() {
    let id = ServerId::Str("group/survival".to_string());
    assert_eq!(id.try_as_str_unresolved(), Ok("group/survival".to_string()));
    assert_eq!(id.try_as_session(), Ok("group.survival.mcserver".to_string()));
    let path = ServerId::AbsolutePath(ServerPath::parse("/srv/mc/a"));
    assert_eq!(path.try_as_str_unresolved(), Ok("/srv/mc/a".to_string()));
    assert_eq!(path.try_as_session(), Ok(".srv.mc.a.mcserver".to_string()));
}

#[test]
fn absolute_paths() {
    let c = config();
    let loc = location("/srv/mc/a/world", Ok("/srv/mc/a"));
    let id = ServerId::Str("survival".to_string());
    assert_eq!(id.try_as_absolute_path(&c, &loc).map(|p| p.render()), Ok("/srv/mc/survival".to_string()));
    assert_eq!(id.try_as_str_absolute(&c, &loc), Ok("/srv/mc/survival".to_string()));
    let here = ServerId::Str(".".to_string());
    assert_eq!(here.try_as_absolute_path(&c, &loc).map(|p| p.render()), Ok("/srv/mc/a".to_string()));
    let outside = location("/home/u", Ok("/home/u"));
    assert_eq!(here.try_as_str_absolute(&c, &outside), Err(Error::InvalidServerString("/home/u".to_string())));
    let nowhere = location("/home/u", Err(SearchFailure::MissingParent(ServerPath::parse("/"))));
    assert_eq!(
        here.try_as_absolute_path(&c, &nowhere).map(|p| p.render()),
        Err(Error::InvalidServersDirectory(InvalidServersDirectoryError::MissingParent("/".to_string())))
    );
    let io = location("/x", Err(SearchFailure::Io("denied".to_string())));
    assert_eq!(here.try_as_absolute_path(&c, &io).map(|p| p.render()), Err(Error::Io("denied".to_string())));
    let path = ServerId::AbsolutePath(ServerPath::parse("/elsewhere/s"));
    assert_eq!(path.try_as_str_absolute(&c, &loc), Ok("/elsewhere/s".to_string()));
}

#[test]
fn relative_names() {
    let c = config();
    let loc = location("/srv/mc/a/world", Ok("/srv/mc/a"));
    assert_eq!(ServerId::Str("s".to_string()).try_as_str_relative(&c, &loc), Ok("s".to_string()));
    assert_eq!(ServerId::Str(".".to_string()).try_as_str_relative(&c, &loc), Ok("a/world".to_string()));
    assert_eq!(ServerId::AbsolutePath(ServerPath::parse("/srv/mc/g/s")).try_as_str_relative(&c, &loc), Ok("g/s".to_string()));
    assert_eq!(ServerId::AbsolutePath(ServerPath::parse("/tmp/s")).try_as_str_relative(&c, &loc), Err(Error::StripPrefix));
    let unreadable = Location { current_dir: Err("gone".to_string()), enclosing_server: Ok(ServerPath::parse("/srv/mc/a")) };
    assert_eq!(ServerId::Str(".".to_string()).try_as_str_relative(&c, &unreadable), Err(Error::Io("gone".to_string())));
}

#[test]
fn falling_back_to_the_default() {
    let c = config();
    assert_eq!(Some(ServerId::Str("x".to_string())).try_unwrap_or_fallback(&c).map(|i| text(&i)), Ok("x".to_string()));
    assert_eq!(Option::<ServerId>::None.try_unwrap_or_fallback(&c).map(|i| text(&i)), Ok("survival".to_string()));
    let mut bare = config();
    bare.aliases.clear();
    assert_eq!(Option::<ServerId>::None.try_unwrap_or_fallback(&bare).map(|i| text(&i)), Err(Error::NoDefaultServer));
}

#[test]
fn searching_upwards() {
    match search_step(ServerPath::parse("/srv/mc/a/world"), false) {
        SearchStep::Up(p) => assert_eq!(p.render(), "/srv/mc/a"),
        other => panic!("unexpected {other:?}"),
    }
    match search_step(ServerPath::parse("/srv/mc/a"), true) {
        SearchStep::Found(p) => assert_eq!(p.render(), "/srv/mc/a"),
        other => panic!("unexpected {other:?}"),
    }
    match search_step(ServerPath::parse("/"), false) {
        SearchStep::Failed(f) => assert_eq!(
            f.to_error(),
            Error::InvalidServersDirectory(InvalidServersDirectoryError::MissingParent("/".to_string()))
        ),
        other => panic!("unexpected {other:?}"),
    }
}

#[test]
fn sessions_name_their_servers_back() {
    for name in ["survival", "group/creative", "a/b/c"] {
        let session = ServerId::Str(name.to_string()).try_as_session().unwrap();
        assert_eq!(ServerId::from_session(session).map(|i| text(&i)), Some(name.to_string()));
    }
    let dotted = ServerId::Str("my.server".to_string()).try_as_session().unwrap();
    assert_eq!(ServerId::from_session(dotted).map(|i| text(&i)), Some("my/server".to_string()));
}

#[test]
fn relative_names_resolve_back() {
    let c = config();
    let loc = location("/srv/mc", Err(SearchFailure::MissingParent(ServerPath::parse("/"))));
    let path = ServerPath::parse("/srv/mc/group/survival");
    let name = ServerId::AbsolutePath(path.clone()).try_as_str_relative(&c, &loc).unwrap();
    assert_eq!(name, "group/survival");
    let back = ServerId::Str(name).try_as_absolute_path(&c, &loc).unwrap();
    assert_eq!(back.render(), path.render());
}

#[test]
fn unexpandable_servers_directory() {
    let c = Config {
        default_java_args: vec![],
        nogui: true,
        servers_directory: ServersDirectory::from("$MCSERVER_SURELY_UNSET_VARIABLE/srv".to_string()),
        aliases: vec![],
        rcon: vec![],
    };
    let loc = location("/srv/mc", Err(SearchFailure::MissingParent(ServerPath::parse("/"))));
    assert!(matches!(ServerId::Str("a".to_string()).try_as_absolute_path(&c, &loc), Err(Error::ShellexpandLookup(_))));
    let p = ServerPath::parse("/srv/mc/a");
    assert_eq!(ServerId::AbsolutePath(p.clone()).try_as_absolute_path(&c, &loc).map(|q| q.render()), Ok("/srv/mc/a".to_string()));
    assert!(matches!(ServerId::AbsolutePath(p).try_as_str_relative(&c, &loc), Err(Error::ShellexpandLookup(_))));
    let id = ServerId::Str("a".to_string());
    assert_eq!(id.try_as_str_absolute(&c, &loc).err(), id.try_as_absolute_path(&c, &loc).err());
}
