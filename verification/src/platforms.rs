//! Where a server's jar is downloaded from, for each platform.
//!
//! The platforms' APIs are asked over HTTP by the caller; this module picks
//! versions from their answers and builds the download addresses.
use vstd::prelude::*;
use crate::error::Error;
use crate::text::{owned, push_str, string_of};

verus! {

/// The Fabric versions API.
pub const FABRIC_BASE_API_URL: &'static str = "https://meta.fabricmc.net/v2/versions";

/// The Paper project API.
pub const PAPER_BASE_API_URL: &'static str = "https://api.papermc.io/v2/projects/paper";

/// Where Paper's downloads are stored.
pub const PAPER_BASE_DOWNLOAD_URL: &'static str = "https://fill-data.papermc.io/v1/objects";

/// The Purpur project API.
pub const PURPUR_BASE_API_URL: &'static str = "https://api.purpurmc.org/v2/purpur";

/// The version asked for, where `latest` asks for none in particular.
pub fn requested_version(version: Option<String>) -> (res: Option<String>)
    ensures
        version matches Some(v) && v@ != "latest"@ ==> res == version,
        version matches Some(v) && v@ == "latest"@ ==> res is None,
        version is None ==> res is None,
{
    match version {
        Some(v) => {
            if v == owned("latest") {
                None
            } else {
                Some(v)
            }
        },
        None => None,
    }
}

/// A version that Fabric lists, and whether it is stable.
#[derive(Debug)]
pub struct FabricEntry {
    pub version: String,
    pub stable: bool,
}

/// The game, loader and installer versions that Fabric lists, newest first.
#[derive(Debug)]
pub struct FabricVersions {
    pub game: Vec<FabricEntry>,
    pub loader: Vec<FabricEntry>,
    pub installer: Vec<FabricEntry>,
}

/// The position of the first stable entry.
pub open spec fn first_stable_index(entries: Seq<FabricEntry>) -> Option<int> {
    if exists|i: int| 0 <= i < entries.len() && entries[i].stable {
        Some(choose|i: int| 0 <= i < entries.len() && entries[i].stable && forall|j: int| 0 <= j < i ==> !entries[j].stable)
    } else {
        None
    }
}

/// The version of the first stable entry, if any.
pub open spec fn first_stable_version(entries: Seq<FabricEntry>) -> Option<Seq<char>> {
    match first_stable_index(entries) {
        Some(i) => Some(entries[i].version@),
        None => None,
    }
}

/// The first stable entry, if any.
pub fn first_stable(entries: Vec<FabricEntry>) -> (res: Option<FabricEntry>)
    ensures
        res is None <==> first_stable_index(entries@) is None,
        res matches Some(e) ==> e == entries@[first_stable_index(entries@)->0],
{
    let mut rest = entries;
    let ghost all = rest@;
    let mut k: usize = 0;
    assert(all.skip(0) =~= all);
    assert(all.len() == rest.len());
    while rest.len() > 0
        invariant
            k <= all.len(),
            all.len() <= usize::MAX,
            all == entries@,
            rest@ == all.skip(k as int),
            forall|j: int| 0 <= j < k ==> !(#[trigger] all[j]).stable,
        decreases rest.len(),
    {
        let e = rest.remove(0);
        proof {
            assert(e == all[k as int]);
            assert(rest@ =~= all.skip(k + 1));
        }
        if e.stable {
            proof {
                let i = choose|i: int| 0 <= i < all.len() && all[i].stable && forall|j: int| 0 <= j < i ==> !all[j].stable;
                assert(i == k as int) by {
                    if i < k {
                        assert(!all[i].stable);
                    } else if i > k {
                        assert(!all[k as int].stable);
                    }
                }
            }
            return Some(e);
        }
        k = k + 1;
    }
    None
}

/// The address of Fabric's server jar for the given versions.
pub open spec fn fabric_jar_url(game: Seq<char>, loader: Seq<char>, installer: Seq<char>) -> Seq<char> {
    FABRIC_BASE_API_URL@ + "/loader/"@ + game + "/"@ + loader + "/"@ + installer + "/server/jar"@
}

/// The game version a Fabric server gets: the one asked for, or else the
/// first stable one.
pub open spec fn fabric_game_version(game_version: Option<String>, games: Seq<FabricEntry>) -> Option<Seq<char>> {
    match game_version {
        Some(v) => Some(v@),
        None => first_stable_version(games),
    }
}

/// The address of Fabric's server jar: for the game version asked for, or
/// else the first stable one, with the first stable loader and installer;
/// fails, in that order, when one of those has no stable version.
pub fn fabric_download_url(game_version: Option<String>, versions: FabricVersions) -> (res: Result<String, Error>)
    ensures
        ({
            let game = fabric_game_version(game_version, versions.game@);
            let loader = first_stable_version(versions.loader@);
            let installer = first_stable_version(versions.installer@);
            &&& game is None ==> (res matches Err(Error::PlatformsNotFound(m)) && m@ == "stable game version"@)
            &&& game is Some && loader is None ==> (res matches Err(Error::PlatformsNotFound(m)) && m@ == "stable loader"@)
            &&& game is Some && loader is Some && installer is None ==>
                (res matches Err(Error::PlatformsNotFound(m)) && m@ == "stable installer"@)
            &&& game is Some && loader is Some && installer is Some ==>
                (res matches Ok(url) && url@ == fabric_jar_url(game->0, loader->0, installer->0))
        }),
{
    let FabricVersions { game, loader, installer } = versions;
    let game_version = match game_version {
        Some(v) => v,
        None => match first_stable(game) {
            Some(e) => e.version,
            None => return Err(Error::PlatformsNotFound(owned("stable game version"))),
        },
    };
    let loader_version = match first_stable(loader) {
        Some(e) => e.version,
        None => return Err(Error::PlatformsNotFound(owned("stable loader"))),
    };
    let installer_version = match first_stable(installer) {
        Some(e) => e.version,
        None => return Err(Error::PlatformsNotFound(owned("stable installer"))),
    };
    let mut out: Vec<char> = Vec::new();
    push_str(&mut out, FABRIC_BASE_API_URL);
    push_str(&mut out, "/loader/");
    push_str(&mut out, game_version.as_str());
    push_str(&mut out, "/");
    push_str(&mut out, loader_version.as_str());
    push_str(&mut out, "/");
    push_str(&mut out, installer_version.as_str());
    push_str(&mut out, "/server/jar");
    assert(out@ =~= fabric_jar_url(game_version@, loader_version@, installer_version@));
    Ok(string_of(&out))
}

/// One downloadable file of a Paper build: its name and its SHA-256 digest.
#[derive(Debug)]
pub struct PaperApplication {
    pub name: String,
    pub sha256: String,
}

/// The newest Paper version: the last one listed (`versions.pop()`).
pub fn paper_latest_version(versions: Vec<String>) -> (res: String)
    requires
        versions@.len() > 0,
    ensures
        res == versions@.last(),
{
    let mut v = versions;
    match v.pop() {
        Some(last) => last,
        None => owned(""),
    }
}

/// The address that lists the builds of a Paper version.
pub fn paper_builds_url(version: &str) -> (res: String)
    ensures
        res@ == PAPER_BASE_API_URL@ + "/versions/"@ + version@ + "/builds"@,
{
    let mut out: Vec<char> = Vec::new();
    push_str(&mut out, PAPER_BASE_API_URL);
    push_str(&mut out, "/versions/");
    push_str(&mut out, version);
    push_str(&mut out, "/builds");
    string_of(&out)
}

/// The address of the newest build's jar: the last build listed, found by
/// its digest and name.
pub fn paper_download_url(builds: &Vec<PaperApplication>) -> (res: String)
    requires
        builds@.len() > 0,
    ensures
        res@ == PAPER_BASE_DOWNLOAD_URL@ + "/"@ + builds@.last().sha256@ + "/"@ + builds@.last().name@,
{
    let last = &builds[builds.len() - 1];
    let mut out: Vec<char> = Vec::new();
    push_str(&mut out, PAPER_BASE_DOWNLOAD_URL);
    push_str(&mut out, "/");
    push_str(&mut out, last.sha256.as_str());
    push_str(&mut out, "/");
    push_str(&mut out, last.name.as_str());
    string_of(&out)
}

/// The address that describes a Purpur version.
pub fn purpur_version_url(version: &str) -> (res: String)
    ensures
        res@ == PURPUR_BASE_API_URL@ + "/"@ + version@,
{
    let mut out: Vec<char> = Vec::new();
    push_str(&mut out, PURPUR_BASE_API_URL);
    push_str(&mut out, "/");
    push_str(&mut out, version);
    string_of(&out)
}

/// The address of a Purpur build's jar, below its version's address.
pub fn purpur_download_url(version_url: &str, build: &str) -> (res: String)
    ensures
        res@ == version_url@ + "/"@ + build@ + "/download"@,
{
    let mut out: Vec<char> = Vec::new();
    push_str(&mut out, version_url);
    push_str(&mut out, "/");
    push_str(&mut out, build);
    push_str(&mut out, "/download");
    string_of(&out)
}

/// The text of the URL that `url::Url::parse` makes of `text`; `None` when
/// it is not a URL.
pub uninterp spec fn parsed_url(text: Seq<char>) -> Option<Seq<char>>;

/// `url::Url::parse`: the URL as it serialises, or the parser's message.
#[verifier::external_body]
fn url_parse(text: &str) -> (res: Result<String, String>)
    ensures
        res is Ok <==> parsed_url(text@) is Some,
        res matches Ok(u) ==> u@ == parsed_url(text@)->0,
{
    match url::Url::parse(text) {
        Ok(u) => Ok(u.to_string()),
        Err(e) => Err(e.to_string()),
    }
}

/// The download address as a URL; fails when it does not parse.
pub fn download_url(text: &str) -> (res: Result<String, Error>)
    ensures
        res is Ok <==> parsed_url(text@) is Some,
        res matches Ok(u) ==> u@ == parsed_url(text@)->0,
        res matches Err(e) ==> e is UrlParse,
{
    match url_parse(text) {
        Ok(u) => Ok(u),
        Err(m) => Err(Error::UrlParse(m)),
    }
}

} // verus!
