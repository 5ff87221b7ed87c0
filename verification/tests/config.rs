use mcserver::config::{
    add_alias, config_directory_in, get_current_server_directory, handle_server_arg, load, parse_alias, server_or_current,
    transform_number, transform_to_kdl_string, Config, ConfigNode, KdlValueType, NodeClass,
    NodeContext, ServersDirectory,
};
use kdl::KdlDocument;
use mcserver::error::{Error, InvalidServersDirectoryError, ParseConfigError};
use mcserver::paths::ServerPath;
use mcserver::server_id::{Location, SearchFailure};

fn config_with(aliases: Vec<(&str, &str)>) -> Config {
    Config {
        default_java_args: vec![],
        nogui: true,
        servers_directory: ServersDirectory::from("/srv/mc".to_string()),
        aliases: aliases.into_iter().map(|(a, s)| (a.to_string(), s.to_string())).collect(),
        rcon: vec![],
    }
}

fn location_in(dir: &str, server: Option<&str>) -> Location {
    Location {
        current_dir: Ok(ServerPath::parse(dir)),
        enclosing_server: match server {
            Some(s) => Ok(ServerPath::parse(s)),
            None => Err(SearchFailure::MissingParent(ServerPath::parse("/"))),
        },
    }
}

#[test]
fn utilities() {
    assert_eq!(
        transform_number(
            &ConfigNode::parse("number 69").expect("Failed to parse number test node"),
            u8::try_from,
            None
        )
        .expect("Failed to transform number"),
        69
    );
}

#[test]
fn aliasing() {
    let parsed_alias = parse_alias(&ConfigNode::parse("default my-server").expect("Failed to parse alias test node"))
        .expect("Failed to parse alias");

    assert_eq!((parsed_alias.0.as_str(), parsed_alias.1.as_str()), ("default", "my-server"));
}

#[test]
fn number_out_of_bounds() {
    let node = ConfigNode::parse("number 300").unwrap();
    assert_eq!(transform_number(&node, u8::try_from, None), Err(ParseConfigError::OutOfBounds(300)));
    let text = ConfigNode::parse("number \"x\"").unwrap();
    assert_eq!(
        transform_number(&text, u8::try_from, Some(NodeClass::Rcon)),
        Err(ParseConfigError::InvalidType(
            NodeContext { node_name: "number".to_string(), parent_class: None },
            KdlValueType::Integer
        ))
    );
}

#[test]
fn alias_without_value() {
    let node = ConfigNode::parse("default").unwrap();
    assert_eq!(
        parse_alias(&node),
        Err(ParseConfigError::ExpectedValue(NodeContext {
            node_name: "default".to_string(),
            parent_class: Some(NodeClass::Aliases)
        }))
    );
}

#[test]
fn invalid_kdl_is_an_error() {
    assert!(matches!(ConfigNode::parse("a {"), Err(Error::KdlError(_))));
    assert!(matches!(load("a {"), Err(Error::KdlError(_))));
}

#[test]
fn loading_a_configuration() {
    let text = "default_java_args {\n    -Xmx4G\n}\nnogui #false\nservers_directory \"/srv/mc\"\naliases {\n    default survival\n    c creative\n}\nrcon {\n    survival {\n        server_address \"localhost\"\n        port 25575\n        password \"pw\"\n    }\n}\n";
    let config = load(text).expect("valid configuration");
    assert_eq!(config.default_java_args, vec!["\"-Xmx4G\"".to_string()]);
    assert!(!config.nogui);
    assert_eq!(config.servers_directory.raw_string(), "/srv/mc");
    assert_eq!(config.servers_directory.expand(), Ok("/srv/mc".to_string()));
    let mut aliases = config.aliases.clone();
    aliases.sort();
    assert_eq!(aliases, vec![("c".to_string(), "creative".to_string()), ("default".to_string(), "survival".to_string())]);
    assert_eq!(config.rcon.len(), 1);
    assert_eq!(config.rcon[0].0, "survival");
    assert_eq!(config.rcon[0].1.port, Some(25575));
    assert_eq!(config.rcon[0].1.server_address, Some("localhost".to_string()));
    assert_eq!(config.rcon[0].1.password.as_ref().map(|p| p.0.clone()), Some("pw".to_string()));
}

#[test]
fn defaults_of_an_empty_configuration() {
    let config = load("").expect("empty configuration");
    assert!(config.default_java_args.is_empty());
    assert!(config.nogui);
    assert_eq!(config.servers_directory.raw_string(), "~/Servers");
    assert!(config.aliases.is_empty());
    assert!(config.rcon.is_empty());
}

#[test]
fn configuration_errors() {
    assert_eq!(
        load("nogui 3").err(),
        Some(Error::ParseConfigError(ParseConfigError::InvalidType(
            NodeContext { node_name: "nogui".to_string(), parent_class: None },
            KdlValueType::Bool
        )))
    );
    assert_eq!(
        load("rcon {\n    s\n}").err(),
        Some(Error::ParseConfigError(ParseConfigError::ExpectedChildren(NodeClass::Rcon)))
    );
    assert_eq!(
        load("rcon {\n    s {\n        port 70000\n    }\n}").err(),
        Some(Error::ParseConfigError(ParseConfigError::OutOfBounds(70000)))
    );
}

#[test]
fn expanding_with_variables() {
    let dir = ServersDirectory::from("${MCSERVER_SURELY_UNSET_VARIABLE:-/fallback}/servers".to_string());
    assert_eq!(dir.expand(), Ok("/fallback/servers".to_string()));
    assert_eq!(dir.expand(), dir.expand());
}

#[test]
fn unexpandable_directories_fail_every_time() {
    let dir = ServersDirectory::from("$MCSERVER_SURELY_UNSET_VARIABLE/servers".to_string());
    assert!(matches!(dir.expand(), Err(Error::ShellexpandLookup(_))));
    assert!(matches!(dir.expanded_path(), Err(Error::ShellexpandLookup(_))));
}

#[test]
fn kdl_strings() {
    assert_eq!(transform_to_kdl_string("survival"), "survival");
    assert_eq!(transform_to_kdl_string("my-server"), "\"my-server\"");
    assert_eq!(transform_to_kdl_string("say \"hi\""), "\"say \\\"hi\\\"\"");
    assert_eq!(transform_to_kdl_string(""), "");
}

fn aliases_of(document: &KdlDocument) -> Vec<(String, String)> {
    let mut aliases = load(&document.to_string()).expect("the edited document should load").aliases;
    aliases.sort();
    aliases
}

#[test]
fn adding_an_alias_to_existing_aliases() {
    let mut document = KdlDocument::parse("nogui #true\naliases {\n    default survival\n    \"my-alias\" creative\n}\n").unwrap();
    assert_eq!(add_alias(&mut document, "my-alias", "hardcore"), Ok(false));
    let children = document.get("aliases").unwrap().children().unwrap().nodes();
    let names: Vec<&str> = children.iter().map(|c| c.name().value()).collect();
    assert_eq!(names, vec!["default", "my-alias"]);
    assert_eq!(
        aliases_of(&document),
        vec![("default".to_string(), "survival".to_string()), ("my-alias".to_string(), "hardcore".to_string())]
    );
    assert_eq!(add_alias(&mut document, "default", "my-server"), Ok(false));
    assert_eq!(
        aliases_of(&document),
        vec![("default".to_string(), "my-server".to_string()), ("my-alias".to_string(), "hardcore".to_string())]
    );
    assert_eq!(add_alias(&mut document, "longer-alias", "s"), Ok(true));
}

#[test]
fn adding_an_alias_after_rcon() {
    let mut document = KdlDocument::parse("nogui #true\nrcon {\n}\nservers_directory \"/srv\"\n").unwrap();
    assert_eq!(add_alias(&mut document, "a", "b"), Ok(false));
    let names: Vec<&str> = document.nodes().iter().map(|n| n.name().value()).collect();
    assert_eq!(names, vec!["nogui", "rcon", "aliases", "servers_directory"]);
    assert_eq!(aliases_of(&document), vec![("a".to_string(), "b".to_string())]);
}

#[test]
fn adding_an_alias_without_aliases_or_rcon() {
    let mut document = KdlDocument::parse("servers_directory \"/srv\"\n").unwrap();
    assert_eq!(add_alias(&mut document, "default", "survival"), Ok(false));
    let names: Vec<&str> = document.nodes().iter().map(|n| n.name().value()).collect();
    assert_eq!(names, vec!["servers_directory", "aliases"]);
    assert_eq!(aliases_of(&document), vec![("default".to_string(), "survival".to_string())]);
}

#[test]
fn adding_an_alias_to_aliases_without_children() {
    let mut document = KdlDocument::parse("aliases\n").unwrap();
    assert_eq!(
        add_alias(&mut document, "a", "b").err(),
        Some(Error::ParseConfigError(ParseConfigError::ExpectedChildren(NodeClass::Aliases)))
    );
    assert_eq!(document.to_string(), "aliases\n");
}

#[test]
fn server_arguments() {
    let config = config_with(vec![("default", "survival")]);
    let loc = location_in("/srv/mc/creative/world", Some("/srv/mc/creative"));
    assert_eq!(handle_server_arg(None, &config, &loc), Ok("survival".to_string()));
    assert_eq!(handle_server_arg(Some("x".to_string()), &config, &loc), Ok("x".to_string()));
    assert_eq!(handle_server_arg(Some(".".to_string()), &config, &loc), Ok("creative".to_string()));
    let bare = config_with(vec![]);
    assert_eq!(handle_server_arg(None, &bare, &loc), Err(Error::NoDefaultServer));
}

#[test]
fn current_server_directory() {
    let config = config_with(vec![]);
    let nested = location_in("/srv/mc/a/b/c", Some("/srv/mc/a/b"));
    assert_eq!(server_or_current(".".to_string(), &config, &nested), Ok("a/b".to_string()));
    let outside = location_in("/home", Some("/home/x"));
    assert_eq!(
        get_current_server_directory(&ServerPath::parse("/srv/mc"), &outside),
        Err(Error::StripPrefix)
    );
    let lost = location_in("/tmp", None);
    assert_eq!(
        server_or_current(".".to_string(), &config, &lost),
        Err(Error::InvalidServersDirectory(InvalidServersDirectoryError::MissingParent("/".to_string())))
    );
}

#[test]
fn node_contexts_print() {
    assert_eq!(NodeContext::new("port".to_string()).render(), "port");
    assert_eq!(NodeContext::with_parent_class("port".to_string(), NodeClass::Rcon).render(), "port of rcon");
    assert_eq!(KdlValueType::Integer.render(), "integer");
}

#[test]
fn paths() {
    let expected_config_dir = ServerPath::parse(&shellexpand::tilde("~/.config/mcserver/"));

    assert_eq!(
        mcserver::config::get_directory().expect("Failed to get config directory"),
        expected_config_dir
    );
}

#[test]
fn unknown_variables_fail_to_expand() {
    let dir = ServersDirectory::from("$MCSERVER_SURELY_UNSET_VARIABLE/servers".to_string());
    assert!(matches!(dir.expand(), Err(Error::ShellexpandLookup(_))));
}

#[test]
fn configuration_directory() {
    assert_eq!(config_directory_in("/home/u/.config").render(), "/home/u/.config/mcserver");
    assert_eq!(config_directory_in("/home/u/.config/").render(), "/home/u/.config/mcserver");
}

#[test]
fn lookup_errors_are_the_same_everywhere() {
    let dir = ServersDirectory::from("$MCSERVER_SURELY_UNSET_VARIABLE/servers".to_string());
    let a = dir.expand().err();
    let b = dir.expanded_path().err();
    assert!(a.is_some());
    assert_eq!(a, b);
}
