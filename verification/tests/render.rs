use mcserver::cli::Platform;
use mcserver::paths::ServerPath;
use mcserver::tree::{AbsoluteServerObject, LastUsed, ServerState, ServerTags};

#[test]
fn tags_print() {
    assert_eq!(LastUsed::Never.render(false), "(Last used never)");
    assert_eq!(LastUsed::Never.render(true), "(Last used \u{1b}[35;1mnever\u{1b}[0m)");
    assert_eq!(LastUsed::Unknown.render(true), "(Last used unknown)");
    assert_eq!(LastUsed::Time("2m 1s".to_string()).render(false), "(Last used 2m 1s ago)");
    assert_eq!(ServerState::Active.render(false), "(active)");
    assert_eq!(ServerState::Dead.render(true), "(\u{1b}[31;1mdead\u{1b}[0m)");
    let tags = ServerTags { last_used: Some(LastUsed::Unknown), state: Some(ServerState::Dead) };
    assert_eq!(tags.render(false), " (dead) (Last used unknown)");
    assert_eq!(ServerTags::new().render(false), "");
}

#[test]
fn servers_print() {
    let mut o = AbsoluteServerObject::new(ServerPath::parse("g/a"));
    o.set_state(ServerState::Active);
    assert_eq!(o.render(false), "g/a (active)");
}

#[test]
fn platforms_print() {
    assert_eq!(Platform::Fabric.name(), "fabric");
    assert_eq!(Platform::Neoforge.name(), "neoforge");
    assert_eq!(Platform::Purpur.name(), "purpur");
}
