use geode_installer::disk::{Disk, Lookup, Query};
use geode_installer::errors::InstallerError;
use geode_installer::utils::geode_installer::{
    ApiReply, EntryAction, GeodeInstaller, InstallationPaths, GD_APP_ID, GEODE_API_URL,
    GEODE_GITHUB_URL,
};
use geode_installer::utils::steam_game_finder::{GameInfo, SteamGameFinder};

fn unknown(detail: &str) -> InstallerError {
    InstallerError::Unknown(detail.to_string())
}

#[test]
fn constants_name_the_game_and_the_loader() {
    assert_eq!(GD_APP_ID, "322170");
    assert_eq!(GEODE_API_URL, "https://api.geode-sdk.org/v1/loader/versions/latest");
    assert_eq!(GEODE_GITHUB_URL, "https://github.com/geode-sdk/geode/releases/download");
}

#[test]
fn download_address_holds_the_tag_twice() {
    assert_eq!(
        GeodeInstaller::get_download_url("v4.2.0"),
        "https://github.com/geode-sdk/geode/releases/download/v4.2.0/geode-v4.2.0-win.zip"
    );
}

#[test]
fn tag_is_read_from_the_reply() {
    assert_eq!(
        GeodeInstaller::fetch_latest_tag("{\"error\":\"\",\"payload\":{\"tag\":\"v4.2.0\",\"x\":1}}"),
        Ok("v4.2.0".to_string())
    );
    assert_eq!(
        GeodeInstaller::fetch_latest_tag("{\"payload\": {\"tag\": \"v1\"}}"),
        Ok("v1".to_string())
    );
    assert_eq!(
        GeodeInstaller::fetch_latest_tag("{\"error\": 5, \"payload\": {\"tag\": \"v\\u0031\"}}"),
        Ok("v1".to_string())
    );
}

#[test]
fn reply_with_an_error_of_its_own_is_an_error() {
    assert_eq!(
        GeodeInstaller::fetch_latest_tag("{\"error\":\"rate limited\",\"payload\":{\"tag\":\"v1\"}}"),
        Err(unknown("Geode API error: rate limited"))
    );
}

#[test]
fn reply_without_a_tag_is_an_error() {
    let missing = Err(unknown("Failed to extract version tag from API response"));
    assert_eq!(GeodeInstaller::fetch_latest_tag("{\"payload\":{}}"), missing);
    assert_eq!(GeodeInstaller::fetch_latest_tag("{\"payload\":{\"tag\":7}}"), missing);
    assert_eq!(GeodeInstaller::fetch_latest_tag("{\"tag\":\"v1\"}"), missing);
    assert_eq!(GeodeInstaller::fetch_latest_tag("[]"), missing);
    assert_eq!(GeodeInstaller::fetch_latest_tag("null"), missing);
}

#[test]
fn reply_that_is_no_json_is_an_error() {
    assert_eq!(
        GeodeInstaller::fetch_latest_tag("<html>"),
        Err(unknown("expected value at line 1 column 1"))
    );
    assert_eq!(
        GeodeInstaller::fetch_latest_tag(""),
        Err(unknown("EOF while parsing a value at line 1 column 0"))
    );
}

#[test]
fn tag_of_a_reply_is_decided_by_its_fields() {
    let reply = |error: Option<&str>, tag: Option<&str>| {
        Ok(ApiReply { error: error.map(String::from), tag: tag.map(String::from) })
    };
    assert_eq!(GeodeInstaller::tag_of(reply(None, Some("v2"))), Ok("v2".to_string()));
    assert_eq!(GeodeInstaller::tag_of(reply(Some(""), Some("v2"))), Ok("v2".to_string()));
    assert_eq!(
        GeodeInstaller::tag_of(reply(Some("down"), Some("v2"))),
        Err(unknown("Geode API error: down"))
    );
    assert_eq!(
        GeodeInstaller::tag_of(reply(Some(""), None)),
        Err(unknown("Failed to extract version tag from API response"))
    );
    assert_eq!(
        GeodeInstaller::tag_of(Err("bad".to_string())),
        Err(unknown("bad"))
    );
}

fn info(game: Option<&str>, prefix: Option<&str>) -> GameInfo {
    GameInfo {
        app_id: "322170".to_string(),
        game_path: game.map(String::from),
        proton_prefix: prefix.map(String::from),
        library_path: game.map(|_| "/lib".to_string()),
        found: game.is_some(),
    }
}

#[test]
fn installation_needs_the_game_and_its_prefix() {
    assert_eq!(
        GeodeInstaller::paths_of(info(Some("/lib/common/GD"), Some("/lib/compatdata/322170/pfx"))),
        Ok(InstallationPaths {
            game_path: "/lib/common/GD".to_string(),
            proton_prefix: "/lib/compatdata/322170/pfx".to_string(),
        })
    );
    assert_eq!(
        GeodeInstaller::paths_of(info(None, None)),
        Err(InstallerError::Installation(
            "Can't find Geometry Dash installation".to_string()
        ))
    );
    assert_eq!(
        GeodeInstaller::paths_of(info(Some("/lib/common/GD"), None)),
        Err(InstallerError::Installation(
            "Can't find Proton prefix for Geometry Dash".to_string()
        ))
    );
}

#[test]
fn installation_without_the_platform_is_an_error() {
    let disk = Disk::new();
    let finder = match SteamGameFinder::with_home(None, &disk) {
        Lookup::Done(finder) => finder,
        Lookup::Needs(_) => unreachable!(),
    };
    let installer = GeodeInstaller::new(finder);
    assert_eq!(installer.get_finder().get_steam_root(), &None);
    assert_eq!(
        installer.steam_root(),
        Err(InstallerError::Installation(
            "Can't find Steam installation".to_string()
        ))
    );
    assert_eq!(
        installer.locate_geometry_dash(&disk),
        Lookup::Done(Err(InstallerError::Installation(
            "Can't find Geometry Dash installation".to_string()
        )))
    );
}

#[test]
fn installation_is_located_in_the_libraries() {
    let mut disk = Disk::new();
    for (path, found) in [
        ("/home/u/.steam/steam", true),
        ("/home/u/.steam/steam/steamapps", true),
        ("/home/u/.steam/steam/steamapps/libraryfolders.vdf", false),
        ("/home/u/.steam/steam/steamapps/appmanifest_322170.acf", true),
        ("/home/u/.steam/steam/steamapps/common/Geometry Dash", true),
        ("/home/u/.steam/steam/steamapps/compatdata/322170/pfx", true),
    ] {
        disk.record_existence(path.to_string(), found);
    }
    disk.record_content(
        "/home/u/.steam/steam/steamapps/appmanifest_322170.acf".to_string(),
        Ok("\"AppState\" { \"installdir\" \"Geometry Dash\" }".to_string()),
    );
    let finder = match SteamGameFinder::with_home(Some("/home/u"), &disk) {
        Lookup::Done(finder) => finder,
        Lookup::Needs(query) => panic!("{:?}", query),
    };
    let installer = GeodeInstaller::new(finder);
    assert_eq!(installer.steam_root(), Ok(&"/home/u/.steam/steam".to_string()));
    assert_eq!(
        installer.locate_geometry_dash(&disk),
        Lookup::Done(Ok(InstallationPaths {
            game_path: "/home/u/.steam/steam/steamapps/common/Geometry Dash".to_string(),
            proton_prefix: "/home/u/.steam/steam/steamapps/compatdata/322170/pfx".to_string(),
        }))
    );
}

#[test]
fn paths_are_valid_where_both_are_there() {
    let mut disk = Disk::new();
    assert_eq!(
        GeodeInstaller::validate_paths("/pfx", "/game", &disk),
        Lookup::Needs(Query::Exists("/pfx".to_string()))
    );
    disk.record_existence("/pfx".to_string(), true);
    assert_eq!(
        GeodeInstaller::validate_paths("/pfx", "/game", &disk),
        Lookup::Needs(Query::Exists("/game".to_string()))
    );
    disk.record_existence("/game".to_string(), true);
    assert_eq!(GeodeInstaller::validate_paths("/pfx", "/game", &disk), Lookup::Done(Ok(())));
}

#[test]
fn paths_that_are_not_there_are_named() {
    let mut disk = Disk::new();
    disk.record_existence("/pfx".to_string(), false);
    assert_eq!(
        GeodeInstaller::validate_paths("/pfx", "/game", &disk),
        Lookup::Done(Err(unknown("Prefix directory doesn't exist: \"/pfx\"")))
    );
    disk.record_existence("/pfx".to_string(), true);
    disk.record_existence("/my \"game\"".to_string(), false);
    assert_eq!(
        GeodeInstaller::validate_paths("/pfx", "/my \"game\"", &disk),
        Lookup::Done(Err(unknown(
            "Game directory doesn't exist: \"/my \\\"game\\\"\""
        )))
    );
}

#[test]
fn archive_entries_are_made_or_written_or_skipped() {
    assert_eq!(
        GeodeInstaller::extract_zip_entry("/game", "../evil", None, Some(0o755)),
        EntryAction::Skip
    );
    assert_eq!(
        GeodeInstaller::extract_zip_entry("/game", "geode/", Some("geode"), None),
        EntryAction::CreateDirectory { path: "/game/geode".to_string(), mode: None }
    );
    assert_eq!(
        GeodeInstaller::extract_zip_entry("/game", "geode/Geode.dll", Some("geode/Geode.dll"), Some(0o644)),
        EntryAction::WriteFile { path: "/game/geode/Geode.dll".to_string(), mode: Some(0o644) }
    );
    assert_eq!(
        GeodeInstaller::extract_zip_entry("/game", "", Some(""), None),
        EntryAction::WriteFile { path: "/game/".to_string(), mode: None }
    );
}

#[test]
fn reply_is_read_member_by_member() {
    assert_eq!(
        GeodeInstaller::read_api_reply("{\"error\":\"e\",\"payload\":{\"tag\":\"t\"},\"tag\":\"no\"}"),
        Ok(ApiReply { error: Some("e".to_string()), tag: Some("t".to_string()) })
    );
    assert_eq!(
        GeodeInstaller::read_api_reply("{\"error\":null,\"payload\":[\"tag\"]}"),
        Ok(ApiReply { error: None, tag: None })
    );
    assert_eq!(
        GeodeInstaller::read_api_reply("{\"payload\":{\"tag\":{\"tag\":\"deep\"}}}"),
        Ok(ApiReply { error: None, tag: None })
    );
    assert_eq!(
        GeodeInstaller::read_api_reply("{\"payload\""),
        Err("EOF while parsing an object at line 1 column 10".to_string())
    );
}
