use mcserver::paths::ServerPath;
use mcserver::text::{decimal_string, trim_end};

#[test]
fn parsing_and_printing_paths() {
    assert_eq!(ServerPath::parse("/a//b/./c/").render(), "/a/b/c");
    assert_eq!(ServerPath::parse("./a").render(), "./a");
    assert_eq!(ServerPath::parse("a/../b").render(), "a/../b");
    assert_eq!(ServerPath::parse("/").render(), "/");
    assert_eq!(ServerPath::parse("").render(), "");
}

#[test]
fn joining_and_stripping() {
    let base = ServerPath::parse("/srv/mc");
    assert_eq!(base.join_str("a/b").render(), "/srv/mc/a/b");
    assert_eq!(base.join_str("/etc").render(), "/etc");
    assert_eq!(base.join_str("./a").render(), "/srv/mc/a");
    assert_eq!(ServerPath::parse("").join_str("a").render(), "a");
    let full = ServerPath::parse("/srv/mc/a/b");
    assert_eq!(full.strip_prefix(&base).map(|p| p.render()), Some("a/b".to_string()));
    assert!(full.starts_with(&base));
    assert!(!base.starts_with(&full));
    assert_eq!(ServerPath::parse("/srv/mcx").strip_prefix(&base), None);
    let rejoined = base.join(&full.strip_prefix(&base).unwrap());
    assert_eq!(rejoined, full);
}

#[test]
fn popping_and_components() {
    let mut p = ServerPath::parse("/a/b");
    assert!(p.pop());
    assert_eq!(p.render(), "/a");
    assert!(p.pop());
    assert_eq!(p.render(), "/");
    assert!(!p.pop());
    assert_eq!(ServerPath::parse("/a/b").components(), vec!["/", "a", "b"]);
    assert!(ServerPath::parse("x/y").ends_with_name("y"));
    assert_eq!(ServerPath::parse("/a/b").with_added_extension("gz").render(), "/a/b.gz");
    assert_eq!(ServerPath::parse("/a/..").with_added_extension("gz").render(), "/a/..");
}

#[test]
fn text_helpers() {
    assert_eq!(decimal_string(0), "0");
    assert_eq!(decimal_string(1234567890), "1234567890");
    assert_eq!(trim_end("name \t\n"), "name");
    assert_eq!(trim_end("  "), "");
    assert_eq!(trim_end("a\u{3000}"), "a");
}

#[test]
fn printing_and_reading_back() {
    for text in ["/srv/mc/a", "a/b", "./a", "/", "", "a/../b"] {
        let p = ServerPath::parse(text);
        assert_eq!(ServerPath::parse(&p.render()), p);
    }
}
