use geode_installer::disk::{Disk, Lookup, Query};
use geode_installer::utils::steam_game_finder::{key_has_segment, GameInfo, SteamGameFinder};

/// A file system in memory that answers what a search asks and remembers the
/// questions.
struct World {
    directories: Vec<String>,
    files: Vec<(String, String)>,
    asked: Vec<Query>,
}

impl World {
    fn new(directories: &[&str], files: &[(&str, &str)]) -> World {
        World {
            directories: directories.iter().map(|d| d.to_string()).collect(),
            files: files.iter().map(|(p, t)| (p.to_string(), t.to_string())).collect(),
            asked: Vec::new(),
        }
    }

    fn answer(&mut self, disk: &mut Disk, query: Query) {
        self.asked.push(query.clone());
        match query {
            Query::Exists(path) => {
                let found = self.directories.iter().any(|d| *d == path)
                    || self.files.iter().any(|(p, _)| *p == path);
                disk.record_existence(path, found);
            }
            Query::Read(path) => {
                let text = self
                    .files
                    .iter()
                    .find(|(p, _)| *p == path)
                    .map(|(_, t)| t.clone())
                    .ok_or("Is a directory (os error 21)".to_string());
                disk.record_content(path, text);
            }
        }
    }

    fn resolve<T>(&mut self, disk: &mut Disk, search: impl Fn(&Disk) -> Lookup<T>) -> T {
        loop {
            match search(disk) {
                Lookup::Done(value) => return value,
                Lookup::Needs(query) => self.answer(disk, query),
            }
        }
    }
}

fn probed(path: &str) -> Query {
    Query::Exists(path.to_string())
}

fn read(path: &str) -> Query {
    Query::Read(path.to_string())
}

const INDEX: &str = "\"libraryfolders\"\n{\n\t\"0\"\n\t{\n\t\t\"path\"\t\t\"/home/u/.local/share/Steam\"\n\t\t\"label\"\t\t\"\"\n\t}\n\t\"1\"\n\t{\n\t\t\"path\"\t\t\"/mnt/games\"\n\t}\n\t\"2\"\n\t{\n\t\t\"path\"\t\t\"/mnt/unplugged\"\n\t}\n\t\"3\"\n\t{\n\t\t\"path\"\t\t\"/mnt/games\"\n\t}\n}\n";

const MANIFEST: &str =
    "\"AppState\"\n{\n\t\"appid\"\t\t\"322170\"\n\t\"installdir\"\t\t\"Geometry Dash\"\n}\n";

fn steam_world() -> World {
    World::new(
        &[
            "/home/u/.steam/steam",
            "/home/u/.local/share/Steam",
            "/home/u/.local/share/Steam/steamapps",
            "/usr/share/steam",
            "/usr/share/steam/steamapps",
            "/mnt/games/steamapps",
            "/mnt/games/steamapps/common/Geometry Dash",
            "/mnt/games/steamapps/compatdata/322170/pfx",
        ],
        &[
            ("/home/u/.local/share/Steam/steamapps/libraryfolders.vdf", INDEX),
            ("/mnt/games/steamapps/appmanifest_322170.acf", MANIFEST),
        ],
    )
}

fn finder_in(world: &mut World, disk: &mut Disk) -> SteamGameFinder {
    world.resolve(disk, |d| SteamGameFinder::with_home(Some("/home/u"), d))
}

#[test]
fn root_is_the_first_candidate_with_a_library_directory() {
    let mut world = steam_world();
    let mut disk = Disk::new();
    let root = world.resolve(&mut disk, |d| SteamGameFinder::find_steam_root("/home/u", d));
    assert_eq!(root, Some("/home/u/.local/share/Steam".to_string()));
    assert_eq!(
        world.asked,
        vec![
            probed("/home/u/.steam/steam"),
            probed("/home/u/.steam/steam/steamapps"),
            probed("/home/u/.steam/root"),
            probed("/home/u/.local/share/Steam"),
            probed("/home/u/.local/share/Steam/steamapps"),
        ]
    );
}

#[test]
fn root_candidates_end_with_the_system_wide_one() {
    let mut world = World::new(&["/usr/share/steam", "/usr/share/steam/steamapps"], &[]);
    let mut disk = Disk::new();
    let root = world.resolve(&mut disk, |d| SteamGameFinder::find_steam_root("/home/u", d));
    assert_eq!(root, Some("/usr/share/steam".to_string()));
    assert_eq!(
        world.asked,
        vec![
            probed("/home/u/.steam/steam"),
            probed("/home/u/.steam/root"),
            probed("/home/u/.local/share/Steam"),
            probed("/home/u/.var/app/com.valvesoftware.Steam"),
            probed("/home/u/.var/app/com.valvesoftware.Steam/data/Steam"),
            probed("/usr/share/steam"),
            probed("/usr/share/steam/steamapps"),
        ]
    );
}

#[test]
fn no_root_is_no_error() {
    let mut world = World::new(&["/home/u/.steam/root"], &[]);
    let mut disk = Disk::new();
    let root = world.resolve(&mut disk, |d| SteamGameFinder::find_steam_root("/home/u", d));
    assert_eq!(root, None);
    let finder = finder_in(&mut world, &mut disk);
    assert_eq!(finder.get_steam_root(), &None);
    assert!(finder.get_library_folders().is_empty());
}

#[test]
fn no_home_directory_means_no_search() {
    let mut world = steam_world();
    let mut disk = Disk::new();
    let finder = world.resolve(&mut disk, |d| SteamGameFinder::with_home(None, d));
    assert_eq!(finder.get_steam_root(), &None);
    assert!(finder.get_library_folders().is_empty());
    assert!(world.asked.is_empty());
}

#[test]
fn search_asks_for_one_observation_at_a_time() {
    let mut disk = Disk::new();
    assert_eq!(
        SteamGameFinder::find_steam_root("/home/u", &disk),
        Lookup::Needs(probed("/home/u/.steam/steam"))
    );
    disk.record_existence("/home/u/.steam/steam".to_string(), true);
    assert_eq!(
        SteamGameFinder::find_steam_root("/home/u", &disk),
        Lookup::Needs(probed("/home/u/.steam/steam/steamapps"))
    );
    disk.record_existence("/home/u/.steam/steam/steamapps".to_string(), true);
    assert_eq!(
        SteamGameFinder::find_steam_root("/home/u", &disk),
        Lookup::Done(Some("/home/u/.steam/steam".to_string()))
    );
}

#[test]
fn libraries_are_listed_once_in_the_order_of_the_index() {
    let mut world = steam_world();
    let mut disk = Disk::new();
    let finder = finder_in(&mut world, &mut disk);
    assert_eq!(
        finder.get_steam_root(),
        &Some("/home/u/.local/share/Steam".to_string())
    );
    assert_eq!(
        finder.get_library_folders(),
        &vec![
            "/home/u/.local/share/Steam/steamapps".to_string(),
            "/mnt/games/steamapps".to_string(),
        ]
    );
}

#[test]
fn libraries_hold_the_primary_one_without_an_index() {
    let mut world = World::new(&["/r", "/r/steamapps"], &[]);
    let mut disk = Disk::new();
    let root = Some("/r".to_string());
    let folders =
        world.resolve(&mut disk, |d| SteamGameFinder::initialize_library_folders(&root, d));
    assert_eq!(folders, vec!["/r/steamapps".to_string()]);
    assert_eq!(world.asked, vec![probed("/r/steamapps/libraryfolders.vdf")]);
    let none = world.resolve(&mut disk, |d| SteamGameFinder::initialize_library_folders(&None, d));
    assert!(none.is_empty());
}

#[test]
fn libraries_hold_the_primary_one_with_an_unreadable_index() {
    let mut world = World::new(&["/r", "/r/steamapps", "/r/steamapps/libraryfolders.vdf"], &[]);
    let mut disk = Disk::new();
    let root = Some("/r".to_string());
    let folders =
        world.resolve(&mut disk, |d| SteamGameFinder::initialize_library_folders(&root, d));
    assert_eq!(folders, vec!["/r/steamapps".to_string()]);
    assert_eq!(
        world.asked,
        vec![
            probed("/r/steamapps/libraryfolders.vdf"),
            read("/r/steamapps/libraryfolders.vdf"),
        ]
    );
}

#[test]
fn library_entries_are_those_with_a_path_segment() {
    assert!(key_has_segment("libraryfolders.1.path", "path"));
    assert!(key_has_segment("path", "path"));
    assert!(key_has_segment("path.x", "path"));
    assert!(key_has_segment("a.path.b", "path"));
    assert!(!key_has_segment("libraryfolders.1.paths", "path"));
    assert!(!key_has_segment("libraryfolders.1.xpath", "path"));
    assert!(!key_has_segment("libraryfolders.1.label", "path"));
    assert!(!key_has_segment("", "path"));
    assert!(!key_has_segment("pat", "path"));
}

#[test]
fn manifest_of_a_missing_file_is_empty() {
    let mut world = World::new(&["/d"], &[("/f", "\"k\" \"v\"")]);
    let mut disk = Disk::new();
    let missing = world.resolve(&mut disk, |d| SteamGameFinder::parse_vdf_file("/nothing", d));
    assert_eq!(missing.len(), 0);
    let directory = world.resolve(&mut disk, |d| SteamGameFinder::parse_vdf_file("/d", d));
    assert_eq!(directory.len(), 0);
    let file = world.resolve(&mut disk, |d| SteamGameFinder::parse_vdf_file("/f", d));
    assert_eq!(file.len(), 1);
    assert_eq!(file.get("k"), Some(&"v".to_string()));
    assert_eq!(
        world.asked,
        vec![probed("/nothing"), probed("/d"), read("/d"), probed("/f"), read("/f")]
    );
}

#[test]
fn game_is_found_in_the_library_that_holds_it() {
    let mut world = steam_world();
    let mut disk = Disk::new();
    let finder = finder_in(&mut world, &mut disk);
    let found = world.resolve(&mut disk, |d| finder.find_game_by_appid("322170", d));
    assert_eq!(
        found,
        Some((
            "/mnt/games/steamapps/common/Geometry Dash".to_string(),
            "/mnt/games/steamapps".to_string()
        ))
    );
    let other = world.resolve(&mut disk, |d| finder.find_game_by_appid("70", d));
    assert_eq!(other, None);
}

#[test]
fn library_without_the_install_directory_is_passed_over() {
    let mut world = World::new(
        &["/r", "/r/steamapps", "/b/steamapps", "/c/steamapps", "/c/steamapps/common/Geometry Dash"],
        &[
            (
                "/r/steamapps/libraryfolders.vdf",
                "\"libraryfolders\" { \"1\" { \"path\" \"/b\" } \"2\" { \"path\" \"/c\" } }",
            ),
            ("/r/steamapps/appmanifest_322170.acf", "\"AppState\" { \"appid\" \"322170\" }"),
            ("/b/steamapps/appmanifest_322170.acf", MANIFEST),
            ("/c/steamapps/appmanifest_322170.acf", MANIFEST),
        ],
    );
    let mut disk = Disk::new();
    let root = Some("/r".to_string());
    let finder = {
        let folders =
            world.resolve(&mut disk, |d| SteamGameFinder::initialize_library_folders(&root, d));
        assert_eq!(
            folders,
            vec![
                "/r/steamapps".to_string(),
                "/b/steamapps".to_string(),
                "/c/steamapps".to_string()
            ]
        );
        world.directories.push("/home/u/.steam/steam".to_string());
        world.directories.push("/home/u/.steam/steam/steamapps".to_string());
        world.files.push((
            "/home/u/.steam/steam/steamapps/libraryfolders.vdf".to_string(),
            "\"libraryfolders\" { \"0\" { \"path\" \"/r\" } \"1\" { \"path\" \"/b\" } \"2\" { \"path\" \"/c\" } }".to_string(),
        ));
        world.resolve(&mut disk, |d| SteamGameFinder::with_home(Some("/home/u"), d))
    };
    assert_eq!(
        finder.get_library_folders(),
        &vec![
            "/home/u/.steam/steam/steamapps".to_string(),
            "/r/steamapps".to_string(),
            "/b/steamapps".to_string(),
            "/c/steamapps".to_string()
        ]
    );
    world.asked.clear();
    let found = world.resolve(&mut disk, |d| finder.find_game_by_appid("322170", d));
    assert_eq!(
        found,
        Some((
            "/c/steamapps/common/Geometry Dash".to_string(),
            "/c/steamapps".to_string()
        ))
    );
    assert_eq!(
        world.asked,
        vec![
            probed("/home/u/.steam/steam/steamapps/appmanifest_322170.acf"),
            probed("/r/steamapps/appmanifest_322170.acf"),
            read("/r/steamapps/appmanifest_322170.acf"),
            probed("/b/steamapps/appmanifest_322170.acf"),
            read("/b/steamapps/appmanifest_322170.acf"),
            probed("/b/steamapps/common/Geometry Dash"),
            probed("/c/steamapps/appmanifest_322170.acf"),
            read("/c/steamapps/appmanifest_322170.acf"),
            probed("/c/steamapps/common/Geometry Dash"),
        ]
    );
}

#[test]
fn prefix_of_the_owning_library_comes_first() {
    let mut world = steam_world();
    world
        .directories
        .push("/home/u/.local/share/Steam/steamapps/compatdata/322170/pfx".to_string());
    let mut disk = Disk::new();
    let finder = finder_in(&mut world, &mut disk);
    let preferred = world.resolve(&mut disk, |d| {
        finder.find_proton_prefix("322170", Some("/mnt/games/steamapps"), d)
    });
    assert_eq!(
        preferred,
        Some("/mnt/games/steamapps/compatdata/322170/pfx".to_string())
    );
    let first = world.resolve(&mut disk, |d| finder.find_proton_prefix("322170", None, d));
    assert_eq!(
        first,
        Some("/home/u/.local/share/Steam/steamapps/compatdata/322170/pfx".to_string())
    );
    let fallback = world.resolve(&mut disk, |d| {
        finder.find_proton_prefix("322170", Some("/elsewhere/steamapps"), d)
    });
    assert_eq!(
        fallback,
        Some("/home/u/.local/share/Steam/steamapps/compatdata/322170/pfx".to_string())
    );
}

#[test]
fn no_prefix_anywhere_is_none_though_the_game_is_found() {
    let mut world = steam_world();
    world.directories.retain(|d| !d.ends_with("/pfx"));
    let mut disk = Disk::new();
    let finder = finder_in(&mut world, &mut disk);
    let prefix = world.resolve(&mut disk, |d| {
        finder.find_proton_prefix("322170", Some("/mnt/games/steamapps"), d)
    });
    assert_eq!(prefix, None);
    let info = world.resolve(&mut disk, |d| finder.get_game_info("322170", d));
    assert_eq!(
        info,
        GameInfo {
            app_id: "322170".to_string(),
            game_path: Some("/mnt/games/steamapps/common/Geometry Dash".to_string()),
            proton_prefix: None,
            library_path: Some("/mnt/games/steamapps".to_string()),
            found: true,
        }
    );
}

#[test]
fn game_info_tells_what_was_found() {
    let mut world = steam_world();
    let mut disk = Disk::new();
    let finder = finder_in(&mut world, &mut disk);
    let info = world.resolve(&mut disk, |d| finder.get_game_info("322170", d));
    assert_eq!(
        info,
        GameInfo {
            app_id: "322170".to_string(),
            game_path: Some("/mnt/games/steamapps/common/Geometry Dash".to_string()),
            proton_prefix: Some("/mnt/games/steamapps/compatdata/322170/pfx".to_string()),
            library_path: Some("/mnt/games/steamapps".to_string()),
            found: true,
        }
    );
    let unknown = world.resolve(&mut disk, |d| finder.get_game_info("1", d));
    assert_eq!(
        unknown,
        GameInfo {
            app_id: "1".to_string(),
            game_path: None,
            proton_prefix: None,
            library_path: None,
            found: false,
        }
    );
}

#[test]
fn libraries_hold_the_primary_one_with_a_garbled_index() {
    let mut world = World::new(
        &["/r", "/r/steamapps"],
        &[("/r/steamapps/libraryfolders.vdf", "}{ \"path \"libraryfolders\" { \u{0}")],
    );
    let mut disk = Disk::new();
    let root = Some("/r".to_string());
    let folders =
        world.resolve(&mut disk, |d| SteamGameFinder::initialize_library_folders(&root, d));
    assert_eq!(folders, vec!["/r/steamapps".to_string()]);
}

#[test]
fn library_named_by_a_top_level_path_entry_is_listed() {
    let mut world = World::new(
        &["/r", "/r/steamapps", "/x/steamapps", "/y/steamapps"],
        &[(
            "/r/steamapps/libraryfolders.vdf",
            "\"path\" \"/x\" \"paths\" \"/y\" \"a\" { \"path\" \"/y/\" \"b\" { \"path\" \"/z\" } }",
        )],
    );
    let mut disk = Disk::new();
    let root = Some("/r".to_string());
    let folders =
        world.resolve(&mut disk, |d| SteamGameFinder::initialize_library_folders(&root, d));
    assert_eq!(
        folders,
        vec![
            "/r/steamapps".to_string(),
            "/x/steamapps".to_string(),
            "/y/steamapps".to_string()
        ]
    );
    assert_eq!(
        world.asked,
        vec![
            probed("/r/steamapps/libraryfolders.vdf"),
            read("/r/steamapps/libraryfolders.vdf"),
            probed("/x/steamapps"),
            probed("/y/steamapps"),
            probed("/z/steamapps"),
        ]
    );
}

#[test]
fn finder_of_the_current_user_finds_nothing_on_an_empty_disk() {
    let mut world = World::new(&[], &[]);
    let mut disk = Disk::new();
    let finder = world.resolve(&mut disk, SteamGameFinder::new);
    assert_eq!(finder.get_steam_root(), &None);
    assert!(finder.get_library_folders().is_empty());
    assert!(world.asked.len() == 0 || world.asked.len() == 6);
    assert!(world.asked.iter().all(|query| matches!(query, Query::Exists(_))));
}
