use mcserver::cli::Platform;
use mcserver::config::{Config, Password, RconConfig, ServersDirectory};
use mcserver::error::Error;
use mcserver::paths::ServerPath;
use mcserver::server::{
    add_last_used_tag, classify_entry, decode_timestamp, default_new_server_name, encode_timestamp,
    format_elapsed, get_command, get_command_in, get_unix_epoch_secs, jar_file_name, jar_file_txt_path,
    jar_path_from_record, last_used_at, last_used_file_path, metadata_dir, new_template,
    numbered_server_name, path_is_template, rcon_arguments, remove_server, remove_servers,
    removal_confirmation, restart_server_id, retry_removal, server_path_candidate,
    servers_directory_for_walk, template_dir_of, template_source_path, update_existing, EntryKind,
    NEVER_USED_TIMESTAMP, candidate_step, CandidateStep,
};
use mcserver::server_id::{Location, SearchFailure, ServerId};
use mcserver::tree::{AbsoluteServerObject, LastUsed};

fn config() -> Config {
    Config {
        default_java_args: vec!["\"-Xmx4G\"".to_string(), "\"-Xms1G\"".to_string()],
        nogui: true,
        servers_directory: ServersDirectory::from("/srv/mc".to_string()),
        aliases: vec![],
        rcon: vec![
            (
                "survival".to_string(),
                RconConfig { server_address: Some("localhost".to_string()), port: Some(25575), password: Some(Password("pw".to_string())) },
            ),
            ("\"quoted\"".to_string(), RconConfig { server_address: None, port: None, password: None }),
        ],
    }
}

fn location() -> Location {
    Location { current_dir: Ok(ServerPath::parse("/srv/mc/a/world")), enclosing_server: Ok(ServerPath::parse("/srv/mc/a")) }
}

#[test]
fn timestamps_round_trip() {
    let bytes = encode_timestamp(1_700_000_000);
    assert_eq!(bytes, 1_700_000_000u64.to_le_bytes().to_vec());
    assert_eq!(decode_timestamp(&bytes), Some(1_700_000_000));
    assert_eq!(decode_timestamp(&[1, 2, 3]), None);
}

#[test]
fn elapsed_times() {
    assert_eq!(format_elapsed(0), "0s");
    assert_eq!(format_elapsed(65), "1m 5s");
    assert_eq!(format_elapsed(3600), "1h 0m 0s");
    assert_eq!(format_elapsed(90061), "1d 1h 1m 1s");
    assert_eq!(format_elapsed(31556952 + 1), "1y 0d 0h 0m 1s");
}

#[test]
fn last_use_records() {
    assert_eq!(last_used_at(None, "/p", 10), Ok(LastUsed::Unknown));
    assert_eq!(last_used_at(Some(&[0u8; 3]), "/p", 10), Err(Error::InvalidTimestampFile("/p".to_string())));
    let never = NEVER_USED_TIMESTAMP.to_le_bytes();
    assert_eq!(last_used_at(Some(&never), "/p", 10), Ok(LastUsed::Never));
    let then = 1000u64.to_le_bytes();
    assert_eq!(last_used_at(Some(&then), "/p", 1065), Ok(LastUsed::Time("1m 5s".to_string())));
    assert_eq!(last_used_at(Some(&then), "/p", 10), Ok(LastUsed::Time("0s".to_string())));
}

#[test]
fn the_clock_is_after_the_epoch() {
    assert!(get_unix_epoch_secs().expect("clock") > 1_600_000_000);
}

#[test]
fn metadata_paths() {
    let dir = ServerPath::parse("/srv/mc/a");
    assert_eq!(metadata_dir(&dir).render(), "/srv/mc/a/.mcserver");
    assert_eq!(last_used_file_path(&dir).render(), "/srv/mc/a/.mcserver/last_used.timestamp");
    assert_eq!(jar_file_txt_path(&dir).render(), "/srv/mc/a/.mcserver/jar_file.txt");
    assert_eq!(jar_path_from_record(&dir, "paper.jar \n").render(), "/srv/mc/a/paper.jar");
}

#[test]
fn commands() {
    let c = config();
    let loc = location();
    let id = ServerId::Str("survival".to_string());
    let jar = Ok(ServerPath::parse("/srv/mc/survival/paper.jar"));
    assert_eq!(
        get_command(&id, &c, &loc, jar),
        Ok("export SERVER_NAME=survival && zellij action rename-tab Server && cd /srv/mc/survival && while :; do java -jar \"-Xmx4G\" \"-Xms1G\" /srv/mc/survival/paper.jar nogui && for i in {3..1}; do echo \"RESTARTING in $i seconds...\" && sleep 1; done; done".to_string())
    );
    let template = ServerId::Str(".template".to_string());
    assert_eq!(get_command(&template, &c, &loc, Ok(ServerPath::parse("/x.jar"))), Err(Error::TemplateDeployed));
    assert_eq!(get_command(&id, &c, &loc, Err(Error::MissingFile("/srv/mc/survival/x".to_string()))), Err(Error::MissingFile("/srv/mc/survival/x".to_string())));
    let here = ServerId::Str(".".to_string());
    let cmd = get_command_in(&here, &ServerPath::parse("/srv/mc"), &c, &loc, Ok(ServerPath::parse("/j.jar"))).unwrap();
    assert!(cmd.starts_with("export SERVER_NAME=a/world && zellij action rename-tab Server && cd /srv/mc/a && "));
}

#[test]
fn templates() {
    assert!(path_is_template(&ServerPath::parse("/srv/mc/.template")));
    assert!(!path_is_template(&ServerPath::parse("/srv/mc/a.template")));
    assert_eq!(template_dir_of(&ServerPath::parse("/srv/mc/a")).render(), "/srv/mc/a..template");
    let c = config();
    let loc = location();
    assert_eq!(template_source_path(&ServerId::Str("a".to_string()), &c, &loc).map(|p| p.render()), Ok("/srv/mc/a..template".to_string()));
    let plan = new_template(&ServerId::Str("g/a".to_string()), &c, &loc).unwrap();
    assert_eq!(plan.server_dir.render(), "/srv/mc/g/a");
    assert_eq!(plan.server_string, "g/a");
    assert_eq!(plan.template_dir.render(), "/srv/mc/g/a..template");
    assert!(matches!(new_template(&ServerId::Str("g/.template".to_string()), &c, &loc), Err(Error::TemplateUsedForTemplate)));
}

#[test]
fn fresh_server_names() {
    assert_eq!(numbered_server_name("paper-server", 1), "paper-server");
    assert_eq!(numbered_server_name("paper-server", 2), "paper-server-2");
    assert_eq!(numbered_server_name("paper-server", 12), "paper-server-12");
    assert_eq!(server_path_candidate(&ServerPath::parse("/srv/mc"), "s", 3).render(), "/srv/mc/s-3");
    assert_eq!(default_new_server_name(Platform::Paper), "paper-server");
}

#[test]
fn jar_names() {
    assert_eq!(jar_file_name(Some("attachment; filename=\"paper-1.21.jar\""), Platform::Paper), "paper-1.21.jar");
    assert_eq!(jar_file_name(Some("attachment; filename=\"a.jar\"; filename=\"b.jar\""), Platform::Paper), "a.jar");
    assert_eq!(jar_file_name(Some("inline"), Platform::Purpur), "purpur.jar");
    assert_eq!(jar_file_name(None, Platform::Fabric), "fabric.jar");
    assert_eq!(jar_file_name(Some("filename=\"unterminated"), Platform::Fabric), "unterminated");
}

#[test]
fn rcon_commands() {
    let c = config();
    assert_eq!(
        rcon_arguments("survival", &vec!["say hi".to_string()], &c),
        Ok(vec!["-H", "localhost", "-P", "25575", "-p", "pw", "say hi"].into_iter().map(String::from).collect())
    );
    assert_eq!(rcon_arguments("quoted", &vec!["stop".to_string()], &c), Ok(vec!["stop".to_string()]));
    assert_eq!(rcon_arguments("missing", &vec![], &c), Err(Error::MissingRconConfig("missing".to_string())));
}

#[test]
fn removing_servers() {
    let c = config();
    let loc = location();
    let all = vec!["a".to_string(), "b".to_string()];
    let servers = vec![
        ServerId::Str("a".to_string()),
        ServerId::AbsolutePath(ServerPath::parse("/srv/mc/b")),
        ServerId::Str("c".to_string()),
        ServerId::Str("a".to_string()),
    ];
    let plan = remove_servers(&servers, &c, &loc, &all);
    assert_eq!(plan.targets.iter().map(|p| p.render()).collect::<Vec<_>>(), vec!["/srv/mc/a", "/srv/mc/b"]);
    assert_eq!(plan.stop, Some(Error::ServerNotFound("/srv/mc/c".to_string())));
    let outside = vec![ServerId::AbsolutePath(ServerPath::parse("/elsewhere/a"))];
    let plan = remove_servers(&outside, &c, &loc, &all);
    assert!(plan.targets.is_empty());
    assert_eq!(plan.stop, Some(Error::ServerNotFound("/elsewhere/a".to_string())));
    let plan = remove_servers(&vec![], &c, &loc, &all);
    assert!(plan.targets.is_empty() && plan.stop.is_none());
    assert_eq!(remove_server(&ServerId::Str("x".to_string()), &c, &loc).map(|p| p.render()), Ok("/srv/mc/x".to_string()));
    assert!(retry_removal(9));
    assert!(!retry_removal(10));
    assert_eq!(removal_confirmation("/srv/mc/a", "/srv/mc/a\n"), Some(true));
    assert_eq!(removal_confirmation("/srv/mc/a", ""), Some(false));
    assert_eq!(removal_confirmation("/srv/mc/a", "no\n"), None);
    assert_eq!(removal_confirmation("/srv/mc/a", "\n"), Some(false));
    assert_eq!(removal_confirmation("/srv/mc/a", "  \r\n"), Some(false));
}

#[test]
fn restarting() {
    let c = config();
    let loc = location();
    let text = |r: Result<ServerId, Error>| match r {
        Ok(ServerId::Str(s)) => s,
        Ok(ServerId::AbsolutePath(p)) => format!("path:{}", p.render()),
        Err(e) => format!("error:{e:?}"),
    };
    assert_eq!(text(restart_server_id(Some("x".to_string()), Some("y.mcserver".to_string()), &c, &loc)), "x");
    assert_eq!(text(restart_server_id(None, Some("g.y.mcserver".to_string()), &c, &loc)), "g/y");
    assert_eq!(text(restart_server_id(None, Some("plain".to_string()), &c, &loc)), "path:a/world");
    let far = Location { current_dir: Ok(ServerPath::parse("/tmp")), enclosing_server: Err(SearchFailure::Io("x".to_string())) };
    assert_eq!(text(restart_server_id(None, None, &c, &far)), "error:StripPrefix");
}

#[test]
fn walking_the_servers_directory() {
    let servers = ServerPath::parse("/srv/mc");
    match classify_entry(&ServerPath::parse("/srv/mc/g/a"), true, &servers) {
        Ok(EntryKind::Server(p)) => assert_eq!(p.render(), "g/a"),
        other => panic!("unexpected {other:?}"),
    }
    assert!(matches!(classify_entry(&ServerPath::parse("/srv/mc/g"), false, &servers), Ok(EntryKind::Descend)));
    assert!(matches!(classify_entry(&ServerPath::parse("/tmp/a"), true, &servers), Err(Error::StripPrefix)));
    assert_eq!(servers_directory_for_walk(servers.clone(), false), Err(Error::MissingDirectory("/srv/mc".to_string())));
    assert_eq!(servers_directory_for_walk(servers.clone(), true), Ok(servers));
}

#[test]
fn updating_and_tagging() {
    let c = config();
    let loc = location();
    let t = update_existing(&ServerId::Str("a".to_string()), &c, &loc, "paper.jar").unwrap();
    assert_eq!(t.jar_path.render(), "/srv/mc/a/paper.jar");
    assert_eq!(t.metadata_dir.render(), "/srv/mc/a/.mcserver");
    let mut o = AbsoluteServerObject::new(ServerPath::parse("a"));
    add_last_used_tag(&mut o, Err(Error::DurationMathFailure));
    assert_eq!(o.tags.last_used, Some(LastUsed::Unknown));
    add_last_used_tag(&mut o, Ok(LastUsed::Never));
    assert_eq!(o.tags.last_used, Some(LastUsed::Never));
}

#[test]
fn searching_for_a_fresh_path() {
    assert_eq!(candidate_step(1, false), CandidateStep::Use);
    assert_eq!(candidate_step(1, true), CandidateStep::Try(2));
    assert_eq!(candidate_step(7, true), CandidateStep::Try(8));
    assert_eq!(candidate_step(u64::MAX, true), CandidateStep::Exhausted);
    assert_eq!(candidate_step(u64::MAX, false), CandidateStep::Use);
}
