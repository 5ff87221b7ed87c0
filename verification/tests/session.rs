use mcserver::error::Error;
use mcserver::paths::ServerPath;
use mcserver::session::{
    delete_all, delete_all_confirmation, delete_session_arguments, get_alive_server_sessions,
    get_dead_server_sessions, get_server_sessions_to_living, listing_is_indexable,
    path_str_to_session, path_to_session, session_has_exited, session_is_alive,
    session_line_is_indexable, session_line_to_server, sessions_listing_from_output,
    write_line_arguments, SUFFIX,
};

fn line(name: &str, state: &str) -> String {
    format!("\u{1b}[32;1m{name}\u{1b}[m [Created \u{1b}[35;1m2h 5m\u{1b}[m ago] {state}")
}

fn listing() -> Option<String> {
    Some(
        [
            line("alpha.mcserver", "(current)"),
            line("beta.mcserver", "(EXITED - attach to resurrect)"),
            line("other-session", "(current)"),
            line("gamma.nested.mcserver", ""),
        ]
        .join("\n"),
    )
}

#[test]
fn session_name() {
    let path = ServerPath::parse("testing").join_str("test");
    assert_eq!(
        path_to_session(&path).expect("Expected session to be created"),
        format!("testing.test{SUFFIX}")
    );
}

#[test]
fn session_names_from_text() {
    assert_eq!(path_str_to_session("testing/test"), "testing.test.mcserver");
    assert_eq!(path_str_to_session("survival/main"), "survival.main.mcserver");
    assert_eq!(path_str_to_session("plain"), format!("plain{SUFFIX}"));
}

#[test]
fn exited_sessions_are_told_apart() {
    assert!(session_has_exited(&line("beta.mcserver", "(EXITED - attach to resurrect)")));
    assert!(!session_has_exited(&line("alpha.mcserver", "(current)")));
    assert!(session_is_alive(&line("alpha.mcserver", "")));
    assert!(!session_has_exited("no parenthesis EXITED here"));
}

#[test]
fn session_lines_name_servers() {
    let l = line("alpha.mcserver", "(current)");
    assert!(session_line_is_indexable(&l));
    assert_eq!(session_line_to_server(&l), Some("alpha".to_string()));
    let other = line("other-session", "(current)");
    assert_eq!(session_line_to_server(&other), None);
    assert!(session_line_is_indexable("no created marker"));
    assert_eq!(session_line_to_server("no created marker"), None);
    assert!(!session_line_is_indexable("ab [Created"));
}

#[test]
fn alive_and_dead_servers() {
    let l = listing();
    assert!(listing_is_indexable(&l));
    let mut alive = get_alive_server_sessions(&l);
    alive.sort();
    assert_eq!(alive, vec!["alpha".to_string(), "gamma.nested".to_string()]);
    assert_eq!(get_dead_server_sessions(&l), vec!["beta".to_string()]);
    assert!(get_alive_server_sessions(&None).is_empty());
}

#[test]
fn sessions_map_to_living() {
    let mut m = get_server_sessions_to_living(&listing());
    m.sort();
    assert_eq!(
        m,
        vec![("alpha".to_string(), true), ("beta".to_string(), false), ("gamma.nested".to_string(), true)]
    );
    let twice = Some([line("a.mcserver", "(EXITED)"), line("a.mcserver", "")].join("\n"));
    assert_eq!(get_server_sessions_to_living(&twice), vec![("a".to_string(), true)]);
}

#[test]
fn listing_output_codes() {
    assert_eq!(sessions_listing_from_output(Some(0), "x".to_string(), vec![]), Ok(Some("x".to_string())));
    assert_eq!(sessions_listing_from_output(Some(1), "x".to_string(), vec![]), Ok(None));
    assert_eq!(
        sessions_listing_from_output(Some(2), String::new(), b"bad".to_vec()),
        Err(Error::CommandFailure { code: Some(2), stderr: Some(b"bad".to_vec()) })
    );
    assert!(sessions_listing_from_output(None, String::new(), vec![]).is_err());
}

#[test]
fn deleting_sessions() {
    assert_eq!(delete_session_arguments("a/b", false), vec!["delete-session", "a.b.mcserver"]);
    assert_eq!(delete_session_arguments("a", true), vec!["delete-session", "a.mcserver", "--force"]);
    let all = delete_all(&listing());
    assert_eq!(all, vec![("beta".to_string(), vec!["delete-session".to_string(), "beta.mcserver".to_string()])]);
}

#[test]
fn writing_lines() {
    let (chars, enter) = write_line_arguments("s.mcserver", "say hi");
    assert_eq!(chars, vec!["--session", "s.mcserver", "action", "write-chars", "say hi"]);
    assert_eq!(enter, vec!["--session", "s.mcserver", "action", "write", "13"]);
}

#[test]
fn confirming_deletion_of_all() {
    assert_eq!(delete_all_confirmation("YES\n"), Some(true));
    assert_eq!(delete_all_confirmation("y"), Some(true));
    assert_eq!(delete_all_confirmation("No  "), Some(false));
    assert_eq!(delete_all_confirmation("maybe"), None);
    assert_eq!(delete_all_confirmation(""), None);
}

#[test]
fn living_map_agrees_with_alive_and_dead() {
    let l = listing();
    let alive = get_alive_server_sessions(&l);
    let dead = get_dead_server_sessions(&l);
    assert!(alive.iter().all(|n| !dead.contains(n)));
    for (name, living) in get_server_sessions_to_living(&l) {
        if living {
            assert!(alive.contains(&name));
        } else {
            assert!(dead.contains(&name));
        }
    }
}
