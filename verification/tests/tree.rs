use mcserver::config::{Config, ServersDirectory};
use mcserver::error::{Error, InvalidServersDirectoryError};
use mcserver::paths::ServerPath;
use mcserver::tree::{AbsoluteServerObject, LastUsed, NamedServerObject, ServerState, ServerTreeNode};

fn config() -> Config {
    Config {
        default_java_args: vec![],
        nogui: true,
        servers_directory: ServersDirectory::from("/srv/mc".to_string()),
        aliases: vec![],
        rcon: vec![],
    }
}

fn objects(paths: &[&str]) -> Vec<AbsoluteServerObject> {
    paths.iter().map(|p| AbsoluteServerObject::new(ServerPath::parse(p))).collect()
}

#[test]
fn building_a_tree() {
    let mut objs = objects(&["a", "g/b", "g/h/c"]);
    objs[0].set_state(ServerState::Active);
    objs[1].set_last_used(LastUsed::Never);
    let tree = ServerTreeNode::try_from_flat_objects(objs, &config()).expect("tree");
    assert_eq!(tree.name(), "/srv/mc");
    assert_eq!(
        tree.render(false),
        "/srv/mc\n├── a (active)\n└── g\n    ├── b (Last used never)\n    └── h\n        └── c\n\n2 directories, 3 servers"
    );
    assert_eq!(
        tree.render(true).lines().next(),
        Some("\u{1b}[34;1m/srv/mc\u{1b}[0m")
    );
}

#[test]
fn one_directory_one_server() {
    let tree = ServerTreeNode::try_from_flat_objects(objects(&["g/a"]), &config()).expect("tree");
    assert_eq!(tree.render(false), "/srv/mc\n└── g\n    └── a\n\n1 directory, 1 server");
}

#[test]
fn conflicting_servers() {
    assert_eq!(
        ServerTreeNode::try_from_flat_objects(objects(&["a", "a/b"]), &config()).err(),
        Some(Error::InvalidServersDirectory(InvalidServersDirectoryError::DuplicateServer("a".to_string())))
    );
    assert_eq!(
        ServerTreeNode::try_from_flat_objects(objects(&["a/b", "a"]), &config()).err(),
        Some(Error::InvalidServersDirectory(InvalidServersDirectoryError::DuplicateServer("a".to_string())))
    );
    assert_eq!(
        ServerTreeNode::try_from_flat_objects(objects(&[""]), &config()).err(),
        Some(Error::InvalidServersDirectory(InvalidServersDirectoryError::MissingServerHead("".to_string())))
    );
}

#[test]
fn naming_a_server_by_its_path() {
    let named = NamedServerObject::try_from(AbsoluteServerObject::new(ServerPath::parse("/srv/mc/g/a"))).unwrap();
    assert_eq!(named.name, "a");
    assert_eq!(named.render(false), "a");
    assert!(NamedServerObject::try_from(AbsoluteServerObject::new(ServerPath::parse(""))).is_err());
}
