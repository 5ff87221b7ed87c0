use mcserver::cli::ListingArguments;
use mcserver::listing::{
    fully_tag_servers, get_all_hashed, get_servers_list, path_lt, retain_active, retain_and_tag_dead,
    retain_and_tag_inactive, sort_servers, tag_dead,
};
use mcserver::paths::ServerPath;
use mcserver::tree::{AbsoluteServerObject, LastUsed, ServerState};

fn line(name: &str, state: &str) -> String {
    format!("\u{1b}[32;1m{name}\u{1b}[m [Created \u{1b}[35;1m1h\u{1b}[m ago] {state}")
}

fn objects(paths: &[&str]) -> Vec<AbsoluteServerObject> {
    paths.iter().map(|p| AbsoluteServerObject::new(ServerPath::parse(p))).collect()
}

fn rendered(v: &[AbsoluteServerObject]) -> Vec<String> {
    v.iter().map(|o| o.path.render()).collect()
}

fn args(active: bool, inactive: bool, dead: bool) -> ListingArguments {
    ListingArguments { active, inactive, dead }
}

#[test]
fn paths_order_by_components() {
    let p = ServerPath::parse;
    assert!(path_lt(&p("a"), &p("b")));
    assert!(path_lt(&p("a"), &p("a/b")));
    assert!(!path_lt(&p("a/b"), &p("a")));
    assert!(path_lt(&p("a/b"), &p("a-b")));
    assert!(path_lt(&p("/z"), &p("a")));
    assert!(path_lt(&p("B"), &p("a")));
    assert!(!path_lt(&p("a"), &p("a")));
}

#[test]
fn sorting_servers() {
    let mut v = objects(&["b", "a/c", "a", "a-b", "a/b"]);
    sort_servers(&mut v);
    assert_eq!(rendered(&v), vec!["a", "a/b", "a/c", "a-b", "b"]);
}

#[test]
fn keeping_active_servers() {
    let listing = Some([line("alpha.mcserver", ""), line("beta.mcserver", "(EXITED)")].join("\n"));
    let mut v = objects(&["alpha", "beta", "gamma"]);
    retain_active(&mut v, &listing);
    assert_eq!(rendered(&v), vec!["alpha"]);
    let mut w = objects(&["alpha", "beta", "gamma"]);
    let lu = vec![LastUsed::Never, LastUsed::Unknown, LastUsed::Time("5s".to_string())];
    retain_and_tag_inactive(&mut w, &listing, &lu);
    assert_eq!(rendered(&w), vec!["beta", "gamma"]);
    assert_eq!(w[0].tags.last_used, Some(LastUsed::Unknown));
    assert_eq!(w[1].tags.last_used, Some(LastUsed::Time("5s".to_string())));
}

#[test]
fn dead_sessions_are_matched_by_session_name() {
    let listing = Some(line("beta.mcserver", "(EXITED)"));
    let mut v = objects(&["beta", "gamma"]);
    tag_dead(&mut v, &listing);
    assert_eq!(v[0].tags.state, Some(ServerState::Dead));
    assert_eq!(v[1].tags.state, None);
    let mut w = objects(&["beta", "gamma"]);
    retain_and_tag_dead(&mut w, &listing, &vec![LastUsed::Never, LastUsed::Never]);
    assert_eq!(rendered(&w), vec!["beta"]);
    assert_eq!(w[0].tags.last_used, Some(LastUsed::Never));
}

#[test]
fn full_tags() {
    let listing = Some(
        [line("alpha.mcserver", ""), line("beta.mcserver", "(EXITED)")].join("\n"),
    );
    let mut v = objects(&["alpha", "beta", "gamma"]);
    let lu = vec![LastUsed::Never, LastUsed::Unknown, LastUsed::Time("1s".to_string())];
    fully_tag_servers(&mut v, &listing, &lu);
    assert_eq!(v[0].tags.state, Some(ServerState::Active));
    assert_eq!(v[0].tags.last_used, None);
    assert_eq!(v[1].tags.state, Some(ServerState::Dead));
    assert_eq!(v[1].tags.last_used, Some(LastUsed::Unknown));
    assert_eq!(v[2].tags.state, None);
    assert_eq!(v[2].tags.last_used, Some(LastUsed::Time("1s".to_string())));
}

#[test]
fn server_lists() {
    let listing = Some([line("alpha.mcserver", ""), line("beta.mcserver", "(EXITED)")].join("\n"));
    let found = vec![ServerPath::parse("gamma"), ServerPath::parse("alpha"), ServerPath::parse("beta")];
    let lu = vec![LastUsed::Never, LastUsed::Never, LastUsed::Never];
    let all = get_servers_list(args(false, false, false), found.clone(), &listing, &lu);
    assert_eq!(rendered(&all), vec!["alpha", "beta", "gamma"]);
    assert_eq!(all[0].tags.state, Some(ServerState::Active));
    assert_eq!(all[0].tags.last_used, None);
    assert_eq!(all[1].tags.state, Some(ServerState::Dead));
    assert_eq!(all[1].tags.last_used, Some(LastUsed::Never));
    assert_eq!(all[2].tags.state, None);
    assert_eq!(all[2].tags.last_used, Some(LastUsed::Never));
    let active = get_servers_list(args(true, false, false), found.clone(), &listing, &lu);
    assert_eq!(rendered(&active), vec!["alpha"]);
    let inactive = get_servers_list(args(false, true, true), found.clone(), &listing, &lu);
    assert_eq!(rendered(&inactive), vec!["beta", "gamma"]);
    assert_eq!(inactive[0].tags.state, Some(ServerState::Dead));
    assert_eq!(inactive[1].tags.state, None);
    let dead = get_servers_list(args(false, false, true), found, &listing, &lu);
    assert_eq!(rendered(&dead), vec!["beta"]);
    assert_eq!(dead[0].tags.last_used, Some(LastUsed::Never));
}

#[test]
fn hashed_servers() {
    let found = vec![ServerPath::parse("a/b"), ServerPath::parse("c"), ServerPath::parse("a//b")];
    let mut h = get_all_hashed(&found);
    h.sort();
    assert_eq!(h, vec!["a/b".to_string(), "c".to_string()]);
}
