use mcserver::error::Error;
use mcserver::platforms::{
    download_url, fabric_download_url, first_stable, paper_builds_url, paper_download_url,
    paper_latest_version, purpur_download_url, purpur_version_url, requested_version, FabricEntry,
    FabricVersions, PaperApplication,
};

fn entry(v: &str, stable: bool) -> FabricEntry {
    FabricEntry { version: v.to_string(), stable }
}

#[test]
fn latest_means_none_in_particular() {
    assert_eq!(requested_version(Some("latest".to_string())), None);
    assert_eq!(requested_version(Some("1.21".to_string())), Some("1.21".to_string()));
    assert_eq!(requested_version(None), None);
}

#[test]
fn first_stable_entries() {
    let e = first_stable(vec![entry("a", false), entry("b", true), entry("c", true)]).unwrap();
    assert_eq!(e.version, "b");
    assert!(first_stable(vec![entry("a", false)]).is_none());
}

#[test]
fn fabric_addresses() {
    let versions = || FabricVersions {
        game: vec![entry("1.22-pre", false), entry("1.21", true)],
        loader: vec![entry("0.16", true)],
        installer: vec![entry("1.0", true)],
    };
    assert_eq!(
        fabric_download_url(None, versions()),
        Ok("https://meta.fabricmc.net/v2/versions/loader/1.21/0.16/1.0/server/jar".to_string())
    );
    assert_eq!(
        fabric_download_url(Some("1.20".to_string()), versions()),
        Ok("https://meta.fabricmc.net/v2/versions/loader/1.20/0.16/1.0/server/jar".to_string())
    );
    let no_loader = FabricVersions { game: vec![], loader: vec![entry("x", false)], installer: vec![] };
    assert_eq!(fabric_download_url(Some("1.20".to_string()), no_loader), Err(Error::PlatformsNotFound("stable loader".to_string())));
    let nothing = FabricVersions { game: vec![], loader: vec![], installer: vec![] };
    assert_eq!(fabric_download_url(None, nothing), Err(Error::PlatformsNotFound("stable game version".to_string())));
    let no_installer = FabricVersions { game: vec![entry("1", true)], loader: vec![entry("2", true)], installer: vec![] };
    assert_eq!(fabric_download_url(None, no_installer), Err(Error::PlatformsNotFound("stable installer".to_string())));
}

#[test]
fn paper_addresses() {
    assert_eq!(paper_latest_version(vec!["1.20".to_string(), "1.21".to_string()]), "1.21");
    assert_eq!(paper_builds_url("1.21"), "https://api.papermc.io/v2/projects/paper/versions/1.21/builds");
    let builds = vec![
        PaperApplication { name: "old.jar".to_string(), sha256: "00".to_string() },
        PaperApplication { name: "paper-1.21-100.jar".to_string(), sha256: "abc".to_string() },
    ];
    assert_eq!(paper_download_url(&builds), "https://fill-data.papermc.io/v1/objects/abc/paper-1.21-100.jar");
}

#[test]
fn purpur_addresses() {
    let v = purpur_version_url("1.21");
    assert_eq!(v, "https://api.purpurmc.org/v2/purpur/1.21");
    assert_eq!(purpur_download_url(&v, "2300"), "https://api.purpurmc.org/v2/purpur/1.21/2300/download");
}

#[test]
fn urls_are_checked() {
    assert_eq!(download_url("https://example.com"), Ok("https://example.com/".to_string()));
    assert!(matches!(download_url("not a url"), Err(Error::UrlParse(_))));
}
