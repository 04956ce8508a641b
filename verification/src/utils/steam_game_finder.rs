//! Finding the platform's installation, its libraries, and in them an
//! application's install directory and compatibility prefix.
//!
//! Every search here is a function of what was observed of the disk (see
//! [`crate::disk`]): it never fails, it only runs out of candidates.

use crate::disk::{
    asks_anew, presence, probe, settled, Disk, DiskView, Lookup, LookupView, Query, QueryView,
};
use crate::paths::{join, join_path};
use crate::text::{chars_of, joined, matches_at, occurs_at};
use crate::vdf::{parse, parse_text, value_of, KeyValueDocument};
use vstd::prelude::*;

verus! {

/// The directories in which the platform may be installed, in the order in
/// which they are tried: those below the user's home directory, then the
/// system-wide one.
pub open spec fn root_candidates(home: Seq<char>) -> Seq<Seq<char>> {
    seq![
        join(join(home, ".steam"@), "steam"@),
        join(join(home, ".steam"@), "root"@),
        join(join(join(home, ".local"@), "share"@), "Steam"@),
        join(join(join(home, ".var"@), "app"@), "com.valvesoftware.Steam"@),
        join(
            join(join(join(join(home, ".var"@), "app"@), "com.valvesoftware.Steam"@), "data"@),
            "Steam"@,
        ),
        "/usr/share/steam"@,
    ]
}

/// Whether `path` is an installation of the platform: it exists and holds a
/// `steamapps` directory. The directory is probed only where `path` exists.
pub open spec fn qualifies_as_root(disk: DiskView, path: Seq<char>) -> LookupView<bool> {
    match presence(disk, path) {
        LookupView::Done(true) => presence(disk, join(path, "steamapps"@)),
        other => other,
    }
}

/// The first of `candidates[from..]` that qualifies as an installation.
pub open spec fn first_root(disk: DiskView, candidates: Seq<Seq<char>>, from: int) -> LookupView<
    Option<Seq<char>>,
>
    decreases candidates.len() - from,
{
    if from < 0 || from >= candidates.len() {
        LookupView::Done(None)
    } else {
        match qualifies_as_root(disk, candidates[from]) {
            LookupView::Needs(query) => LookupView::Needs(query),
            LookupView::Done(true) => LookupView::Done(Some(candidates[from])),
            LookupView::Done(false) => first_root(disk, candidates, from + 1),
        }
    }
}

/// The platform's installation directory for a user whose home directory is
/// `home`.
pub open spec fn locate_root(home: Seq<char>, disk: DiskView) -> LookupView<Option<Seq<char>>> {
    first_root(disk, root_candidates(home), 0)
}

/// The document in the file at `path`. A file that is not there, or cannot be
/// read as text, counts as an empty document.
pub open spec fn document_at(disk: DiskView, path: Seq<char>) -> LookupView<
    Seq<(Seq<char>, Seq<char>)>,
> {
    match presence(disk, path) {
        LookupView::Needs(query) => LookupView::Needs(query),
        LookupView::Done(false) => LookupView::Done(Seq::empty()),
        LookupView::Done(true) => match disk.read(path) {
            None => LookupView::Needs(QueryView::Read(path)),
            Some(Err(_)) => LookupView::Done(Seq::empty()),
            Some(Ok(text)) => LookupView::Done(parse_text(text)),
        },
    }
}

/// Whether one of the segments of the dotted path `key` is `name`.
pub open spec fn has_segment(key: Seq<char>, name: Seq<char>) -> bool {
    exists|i: int| is_segment_at(key, name, i)
}

/// Whether `name` stands in `key` at `i`, between two dots or ends of `key`.
pub open spec fn is_segment_at(key: Seq<char>, name: Seq<char>, i: int) -> bool {
    &&& occurs_at(key, name, i)
    &&& (i == 0 || key[i - 1] == '.')
    &&& (i + name.len() == key.len() || key[i + name.len()] == '.')
}

/// Whether an entry of the library index with this key names a library: one
/// of the key's segments is `path`.
pub open spec fn names_library(key: Seq<char>) -> bool {
    has_segment(key, "path"@)
}

/// The library directories that `entries[from..]` name and that exist, in the
/// order of the entries.
pub open spec fn indexed_libraries(
    disk: DiskView,
    entries: Seq<(Seq<char>, Seq<char>)>,
    from: int,
) -> LookupView<Seq<Seq<char>>>
    decreases entries.len() - from,
{
    if from < 0 || from >= entries.len() {
        LookupView::Done(Seq::empty())
    } else if !names_library(entries[from].0) {
        indexed_libraries(disk, entries, from + 1)
    } else {
        let directory = join(entries[from].1, "steamapps"@);
        match presence(disk, directory) {
            LookupView::Needs(query) => LookupView::Needs(query),
            LookupView::Done(found) => match indexed_libraries(disk, entries, from + 1) {
                LookupView::Needs(query) => LookupView::Needs(query),
                LookupView::Done(rest) => LookupView::Done(
                    if found {
                        seq![directory] + rest
                    } else {
                        rest
                    },
                ),
            },
        }
    }
}

/// `paths` without repetitions: each path where it first occurs. Paths are
/// compared as they are written: two ways of writing one directory are two
/// paths.
pub open spec fn distinct(paths: Seq<Seq<char>>) -> Seq<Seq<char>>
    decreases paths.len(),
{
    if paths.len() == 0 {
        Seq::empty()
    } else {
        let before = distinct(paths.drop_last());
        if before.contains(paths.last()) {
            before
        } else {
            before.push(paths.last())
        }
    }
}

/// The library directories of the installation at `root`: its own
/// `steamapps` first, then those of its library index that exist, none twice.
pub open spec fn library_folders(root: Option<Seq<char>>, disk: DiskView) -> LookupView<
    Seq<Seq<char>>,
> {
    match root {
        None => LookupView::Done(Seq::empty()),
        Some(root) => {
            let first = join(root, "steamapps"@);
            match document_at(disk, join(first, "libraryfolders.vdf"@)) {
                LookupView::Needs(query) => LookupView::Needs(query),
                LookupView::Done(index) => match indexed_libraries(disk, index, 0) {
                    LookupView::Needs(query) => LookupView::Needs(query),
                    LookupView::Done(more) => LookupView::Done(distinct(seq![first] + more)),
                },
            }
        },
    }
}

/// The manifest of the application `app_id` in `library`.
pub open spec fn manifest_path(library: Seq<char>, app_id: Seq<char>) -> Seq<char> {
    join(library, "appmanifest_"@ + app_id + ".acf"@)
}

/// The install directory of `app_id` in `library`, with the library: the
/// directory below `common` that the application's manifest names, where the
/// manifest names one and the directory exists.
pub open spec fn install_in(disk: DiskView, library: Seq<char>, app_id: Seq<char>) -> LookupView<
    Option<(Seq<char>, Seq<char>)>,
> {
    match document_at(disk, manifest_path(library, app_id)) {
        LookupView::Needs(query) => LookupView::Needs(query),
        LookupView::Done(manifest) => match value_of(manifest, "AppState.installdir"@) {
            None => LookupView::Done(None),
            Some(directory) => {
                let game = join(join(library, "common"@), directory);
                match presence(disk, game) {
                    LookupView::Needs(query) => LookupView::Needs(query),
                    LookupView::Done(false) => LookupView::Done(None),
                    LookupView::Done(true) => LookupView::Done(Some((game, library))),
                }
            },
        },
    }
}

/// The install directory of `app_id` in the first of `libraries[from..]` that
/// has one.
pub open spec fn first_install(
    disk: DiskView,
    libraries: Seq<Seq<char>>,
    app_id: Seq<char>,
    from: int,
) -> LookupView<Option<(Seq<char>, Seq<char>)>>
    decreases libraries.len() - from,
{
    if from < 0 || from >= libraries.len() {
        LookupView::Done(None)
    } else {
        match install_in(disk, libraries[from], app_id) {
            LookupView::Done(None) => first_install(disk, libraries, app_id, from + 1),
            other => other,
        }
    }
}

/// The compatibility prefix of `app_id` in `library`.
pub open spec fn prefix_path(library: Seq<char>, app_id: Seq<char>) -> Seq<char> {
    join(join(join(library, "compatdata"@), app_id), "pfx"@)
}

/// The compatibility prefix of `app_id` in `library`, where it exists.
pub open spec fn prefix_in(disk: DiskView, library: Seq<char>, app_id: Seq<char>) -> LookupView<
    Option<Seq<char>>,
> {
    match presence(disk, prefix_path(library, app_id)) {
        LookupView::Needs(query) => LookupView::Needs(query),
        LookupView::Done(false) => LookupView::Done(None),
        LookupView::Done(true) => LookupView::Done(Some(prefix_path(library, app_id))),
    }
}

/// The compatibility prefix of `app_id` in the first of `libraries[from..]`
/// that has one.
pub open spec fn first_prefix(
    disk: DiskView,
    libraries: Seq<Seq<char>>,
    app_id: Seq<char>,
    from: int,
) -> LookupView<Option<Seq<char>>>
    decreases libraries.len() - from,
{
    if from < 0 || from >= libraries.len() {
        LookupView::Done(None)
    } else {
        match prefix_in(disk, libraries[from], app_id) {
            LookupView::Done(None) => first_prefix(disk, libraries, app_id, from + 1),
            other => other,
        }
    }
}

/// The compatibility prefix of `app_id`: that in the preferred library where
/// one is named and has it, else that in the first library that has one.
pub open spec fn resolve_prefix(
    disk: DiskView,
    libraries: Seq<Seq<char>>,
    app_id: Seq<char>,
    preferred: Option<Seq<char>>,
) -> LookupView<Option<Seq<char>>> {
    match preferred {
        None => first_prefix(disk, libraries, app_id, 0),
        Some(library) => match prefix_in(disk, library, app_id) {
            LookupView::Done(None) => first_prefix(disk, libraries, app_id, 0),
            other => other,
        },
    }
}

/// Where an application was found.
#[derive(Debug, Clone, PartialEq, Eq)]
pub struct GameInfo {
    pub app_id: String,
    pub game_path: Option<String>,
    pub proton_prefix: Option<String>,
    pub library_path: Option<String>,
    pub found: bool,
}

/// A [`GameInfo`] as contracts see it.
pub struct GameInfoView {
    pub app_id: Seq<char>,
    pub game_path: Option<Seq<char>>,
    pub proton_prefix: Option<Seq<char>>,
    pub library_path: Option<Seq<char>>,
    pub found: bool,
}

impl GameInfoView {
    /// The application counts as found exactly where its install directory
    /// is known, and then its library is known too; a prefix is known only of
    /// an application that was found.
    pub open spec fn wf(self) -> bool {
        &&& self.found == self.game_path.is_some()
        &&& self.found == self.library_path.is_some()
        &&& self.proton_prefix.is_some() ==> self.found
    }
}

impl DeepView for GameInfo {
    type V = GameInfoView;

    open spec fn deep_view(&self) -> GameInfoView {
        GameInfoView {
            app_id: self.app_id@,
            game_path: self.game_path.deep_view(),
            proton_prefix: self.proton_prefix.deep_view(),
            library_path: self.library_path.deep_view(),
            found: self.found,
        }
    }
}

/// What is known of the application `app_id`: its install directory and
/// library, and, only where those were found, its compatibility prefix,
/// looked for in that library first.
pub open spec fn game_info(disk: DiskView, libraries: Seq<Seq<char>>, app_id: Seq<char>) -> LookupView<
    GameInfoView,
> {
    match first_install(disk, libraries, app_id, 0) {
        LookupView::Needs(query) => LookupView::Needs(query),
        LookupView::Done(None) => LookupView::Done(
            GameInfoView {
                app_id,
                game_path: None,
                proton_prefix: None,
                library_path: None,
                found: false,
            },
        ),
        LookupView::Done(Some((game, library))) => match resolve_prefix(
            disk,
            libraries,
            app_id,
            Some(library),
        ) {
            LookupView::Needs(query) => LookupView::Needs(query),
            LookupView::Done(prefix) => LookupView::Done(
                GameInfoView {
                    app_id,
                    game_path: Some(game),
                    proton_prefix: prefix,
                    library_path: Some(library),
                    found: true,
                },
            ),
        },
    }
}

/// The platform's installation and its libraries.
pub struct SteamGameFinder {
    steam_root: Option<String>,
    library_folders: Vec<String>,
}

/// A [`SteamGameFinder`] as contracts see it.
pub struct SteamGameFinderView {
    pub steam_root: Option<Seq<char>>,
    pub library_folders: Seq<Seq<char>>,
}

impl SteamGameFinderView {
    /// No library occurs twice. Where an installation was found, its own
    /// `steamapps` directory is the first library; where none was, there is
    /// no library.
    pub open spec fn wf(self) -> bool {
        &&& self.library_folders.no_duplicates()
        &&& match self.steam_root {
            Some(root) => self.library_folders.len() > 0 && self.library_folders[0] == join(
                root,
                "steamapps"@,
            ),
            None => self.library_folders.len() == 0,
        }
    }
}

impl DeepView for SteamGameFinder {
    type V = SteamGameFinderView;

    closed spec fn deep_view(&self) -> SteamGameFinderView {
        SteamGameFinderView {
            steam_root: self.steam_root.deep_view(),
            library_folders: self.library_folders.deep_view(),
        }
    }
}

/// The finder for a user whose home directory is `home`; without a home
/// directory no installation is looked for.
pub open spec fn finder_for(home: Option<Seq<char>>, disk: DiskView) -> LookupView<
    SteamGameFinderView,
> {
    let root = match home {
        None => LookupView::Done(None),
        Some(home) => locate_root(home, disk),
    };
    match root {
        LookupView::Needs(query) => LookupView::Needs(query),
        LookupView::Done(steam_root) => match library_folders(steam_root, disk) {
            LookupView::Needs(query) => LookupView::Needs(query),
            LookupView::Done(library_folders) => LookupView::Done(
                SteamGameFinderView { steam_root, library_folders },
            ),
        },
    }
}

/// The home directory of the user who runs the program, where one is found
/// and is text.
///
/// `homedir::my_home` takes it from the environment or, failing that, from
/// the system's list of users; it may fail, and it may find none. A path
/// that is not valid UTF-8 cannot be held as text and is given as none, as
/// is a failure. Nothing is claimed of what is found.
#[verifier::external_body]
fn home_directory() -> (r: Option<String>) {
    match homedir::my_home() {
        Ok(Some(home)) => home.into_os_string().into_string().ok(),
        _ => None,
    }
}

/// Whether `name` stands in `key` at `i` as a segment.
fn segment_at(key: &Vec<char>, name: &Vec<char>, i: usize) -> (r: bool)
    ensures
        r == is_segment_at(key@, name@, i as int),
{
    if !matches_at(key, name, i) {
        return false;
    }
    let key_len = key.len();
    let end = i + name.len();
    (i == 0 || key[i - 1] == '.') && (end == key_len || key[end] == '.')
}

/// Whether one of the segments of the dotted path `key` is `name`.
pub fn key_has_segment(key: &str, name: &str) -> (r: bool)
    ensures
        r == has_segment(key@, name@),
{
    let key_chars = chars_of(key);
    let name_chars = chars_of(name);
    let mut i: usize = 0;
    while i < key_chars.len()
        invariant
            key_chars@ == key@,
            name_chars@ == name@,
            forall|j: int| 0 <= j < i ==> !is_segment_at(key@, name@, j),
        decreases key_chars.len() - i,
    {
        if segment_at(&key_chars, &name_chars, i) {
            return true;
        }
        i = i + 1;
    }
    segment_at(&key_chars, &name_chars, i)
}

/// `rest` with `found` in front of its result.
spec fn prepend(found: Seq<Seq<char>>, rest: LookupView<Seq<Seq<char>>>) -> LookupView<
    Seq<Seq<char>>,
> {
    match rest {
        LookupView::Needs(query) => LookupView::Needs(query),
        LookupView::Done(more) => LookupView::Done(found + more),
    }
}

/// Whether `paths` holds `path`.
fn holds_path(paths: &Vec<String>, path: &String) -> (r: bool)
    ensures
        r == paths.deep_view().contains(path@),
{
    let mut i: usize = 0;
    while i < paths.len()
        invariant
            i <= paths.len(),
            forall|j: int| 0 <= j < i ==> paths.deep_view()[j] != path@,
        decreases paths.len() - i,
    {
        if paths[i] == *path {
            assert(paths.deep_view()[i as int] == path@);
            return true;
        }
        i = i + 1;
    }
    false
}

/// `paths` without repetitions: each path where it first occurs.
fn distinct_paths(paths: &Vec<String>) -> (r: Vec<String>)
    ensures
        r.deep_view() == distinct(paths.deep_view()),
{
    let mut out: Vec<String> = Vec::new();
    let mut i: usize = 0;
    while i < paths.len()
        invariant
            i <= paths.len(),
            out.deep_view() == distinct(paths.deep_view().take(i as int)),
        decreases paths.len() - i,
    {
        proof {
            let upto = paths.deep_view().take(i + 1);
            assert(upto.drop_last() =~= paths.deep_view().take(i as int));
        }
        if !holds_path(&out, &paths[i]) {
            out.push(paths[i].clone());
        }
        i = i + 1;
    }
    assert(paths.deep_view().take(paths.len() as int) =~= paths.deep_view());
    out
}

impl SteamGameFinder {
    /// The installation and its libraries.
    pub open spec fn wf(&self) -> bool {
        self.deep_view().wf()
    }

    /// Looks for the platform's installation of the user who runs the
    /// program, and for its libraries: see [`Self::with_home`], of which this
    /// is the result for whatever home directory the user is found to have.
    /// Paths are text here, so a home directory whose path is not valid
    /// UTF-8 counts as none, and nothing is looked for below it.
    pub fn new(disk: &Disk) -> (r: Lookup<SteamGameFinder>)
        ensures
            exists|home: Option<Seq<char>>| r.deep_view() == #[trigger] finder_for(home, disk@),
            r matches Lookup::Done(finder) ==> finder.wf(),
    {
        let home = home_directory();
        let found = match &home {
            Some(home) => Self::with_home(Some(home.as_str()), disk),
            None => Self::with_home(None, disk),
        };
        assert(found.deep_view() == finder_for(home.deep_view(), disk@));
        found
    }

    /// Looks for the platform's installation of a user whose home directory
    /// is `home`, and for its libraries.
    pub fn with_home(home: Option<&str>, disk: &Disk) -> (r: Lookup<SteamGameFinder>)
        ensures
            r.deep_view() == finder_for(home.deep_view(), disk@),
            r matches Lookup::Done(finder) ==> finder.wf(),
    {
        let steam_root = match home {
            None => None,
            Some(home) => match Self::find_steam_root(home, disk) {
                Lookup::Needs(query) => {
                    return Lookup::Needs(query);
                },
                Lookup::Done(root) => root,
            },
        };
        match Self::initialize_library_folders(&steam_root, disk) {
            Lookup::Needs(query) => Lookup::Needs(query),
            Lookup::Done(library_folders) => {
                proof {
                    lemma_library_folders(steam_root.deep_view(), disk@);
                }
                Lookup::Done(SteamGameFinder { steam_root, library_folders })
            },
        }
    }

    /// The installation directory, where one was found.
    pub fn get_steam_root(&self) -> (r: &Option<String>)
        ensures
            r.deep_view() == self.deep_view().steam_root,
    {
        &self.steam_root
    }

    /// The library directories, in the order in which they are searched.
    pub fn get_library_folders(&self) -> (r: &Vec<String>)
        ensures
            r.deep_view() == self.deep_view().library_folders,
    {
        &self.library_folders
    }

    /// The directories in which the platform may be installed.
    fn candidate_roots(home: &str) -> (r: Vec<String>)
        ensures
            r.deep_view() == root_candidates(home@),
    {
        let dot_steam = join_path(home, ".steam");
        let flatpak = join_path(
            join_path(join_path(home, ".var").as_str(), "app").as_str(),
            "com.valvesoftware.Steam",
        );
        let mut out: Vec<String> = Vec::new();
        out.push(join_path(dot_steam.as_str(), "steam"));
        out.push(join_path(dot_steam.as_str(), "root"));
        out.push(
            join_path(join_path(join_path(home, ".local").as_str(), "share").as_str(), "Steam"),
        );
        out.push(flatpak.clone());
        out.push(join_path(join_path(flatpak.as_str(), "data").as_str(), "Steam"));
        out.push(String::from_str("/usr/share/steam"));
        out
    }

    /// Whether `path` is an installation of the platform.
    fn is_steam_root(path: &str, disk: &Disk) -> (r: Lookup<bool>)
        ensures
            r.deep_view() == qualifies_as_root(disk@, path@),
    {
        match probe(disk, path) {
            Lookup::Done(true) => probe(disk, join_path(path, "steamapps").as_str()),
            other => other,
        }
    }

    /// The platform's installation directory: the first of the well-known
    /// directories that exists and holds a `steamapps` directory.
    pub fn find_steam_root(home: &str, disk: &Disk) -> (r: Lookup<Option<String>>)
        ensures
            r.deep_view() == locate_root(home@, disk@),
    {
        let candidates = Self::candidate_roots(home);
        let mut i: usize = 0;
        while i < candidates.len()
            invariant
                i <= candidates.len(),
                candidates.deep_view() == root_candidates(home@),
                locate_root(home@, disk@) == first_root(disk@, root_candidates(home@), i as int),
            decreases candidates.len() - i,
        {
            match Self::is_steam_root(candidates[i].as_str(), disk) {
                Lookup::Needs(query) => {
                    return Lookup::Needs(query);
                },
                Lookup::Done(true) => {
                    return Lookup::Done(Some(candidates[i].clone()));
                },
                Lookup::Done(false) => {},
            }
            i = i + 1;
        }
        Lookup::Done(None)
    }

    /// The document in the file at `path`; an empty one where the file is
    /// not there or cannot be read as text.
    pub fn parse_vdf_file(path: &str, disk: &Disk) -> (r: Lookup<KeyValueDocument>)
        ensures
            match r {
                Lookup::Done(document) => document_at(disk@, path@) == LookupView::Done(document@)
                    && document.wf(),
                Lookup::Needs(query) => document_at(disk@, path@) == LookupView::<
                    Seq<(Seq<char>, Seq<char>)>,
                >::Needs(query.deep_view()),
            },
    {
        match probe(disk, path) {
            Lookup::Needs(query) => {
                return Lookup::Needs(query);
            },
            Lookup::Done(false) => {
                return Lookup::Done(KeyValueDocument::new());
            },
            Lookup::Done(true) => {},
        }
        match disk.read(path) {
            None => Lookup::Needs(Query::Read(String::from_str(path))),
            Some(Err(_)) => Lookup::Done(KeyValueDocument::new()),
            Some(Ok(text)) => Lookup::Done(parse(text.as_str())),
        }
    }

    /// The library directories of the installation at `steam_root`: its own
    /// `steamapps` first, then those that its library index names and that
    /// exist, in the order of the index, none twice.
    pub fn initialize_library_folders(steam_root: &Option<String>, disk: &Disk) -> (r: Lookup<
        Vec<String>,
    >)
        ensures
            r.deep_view() == library_folders(steam_root.deep_view(), disk@),
            r matches Lookup::Done(folders) ==> folders.deep_view().no_duplicates(),
    {
        proof {
            lemma_library_folders(steam_root.deep_view(), disk@);
        }
        let root = match steam_root {
            Some(root) => root,
            None => {
                let none: Vec<String> = Vec::new();
                assert(none.deep_view() =~= Seq::<Seq<char>>::empty());
                return Lookup::Done(none);
            },
        };
        let first = join_path(root.as_str(), "steamapps");
        let index_path = join_path(first.as_str(), "libraryfolders.vdf");
        let index = match Self::parse_vdf_file(index_path.as_str(), disk) {
            Lookup::Needs(query) => {
                return Lookup::Needs(query);
            },
            Lookup::Done(index) => index,
        };
        let ghost head = first@;
        let ghost more = Seq::<Seq<char>>::empty();
        let mut folders: Vec<String> = Vec::new();
        folders.push(first);
        let mut i: usize = 0;
        while i < index.len()
            invariant
                i <= index@.len(),
                index.wf(),
                steam_root.deep_view() == Some(root@),
                head == join(root@, "steamapps"@),
                document_at(disk@, join(head, "libraryfolders.vdf"@)) == LookupView::Done(index@),
                folders.deep_view() == seq![head] + more,
                indexed_libraries(disk@, index@, 0) == prepend(
                    more,
                    indexed_libraries(disk@, index@, i as int),
                ),
            decreases index@.len() - i,
        {
            if key_has_segment(index.key_at(i).as_str(), "path") {
                let directory = join_path(index.value_at(i).as_str(), "steamapps");
                match probe(disk, directory.as_str()) {
                    Lookup::Needs(query) => {
                        return Lookup::Needs(query);
                    },
                    Lookup::Done(found) => {
                        let ghost rest = indexed_libraries(disk@, index@, i + 1);
                        if found {
                            proof {
                                if let LookupView::Done(tail) = rest {
                                    assert(more + (seq![directory@] + tail) =~= more.push(
                                        directory@,
                                    ) + tail);
                                }
                                assert(folders.deep_view().push(directory@) =~= seq![head]
                                    + more.push(directory@));
                                more = more.push(directory@);
                            }
                            folders.push(directory);
                        }
                    },
                }
            }
            i = i + 1;
        }
        Lookup::Done(distinct_paths(&folders))
    }

    /// The install directory of the application `app_id`, and the library
    /// that holds it: the first library wins.
    pub fn find_game_by_appid(&self, app_id: &str, disk: &Disk) -> (r: Lookup<
        Option<(String, String)>,
    >)
        ensures
            r.deep_view() == first_install(disk@, self.deep_view().library_folders, app_id@, 0),
    {
        let ghost libraries = self.library_folders.deep_view();
        let mut i: usize = 0;
        while i < self.library_folders.len()
            invariant
                i <= self.library_folders.len(),
                libraries == self.library_folders.deep_view(),
                libraries == self.deep_view().library_folders,
                first_install(disk@, libraries, app_id@, 0) == first_install(
                    disk@,
                    libraries,
                    app_id@,
                    i as int,
                ),
            decreases self.library_folders.len() - i,
        {
            match Self::find_game_in(&self.library_folders[i], app_id, disk) {
                Lookup::Done(None) => {},
                other => {
                    return other;
                },
            }
            i = i + 1;
        }
        Lookup::Done(None)
    }

    /// The install directory of the application `app_id` in `library`.
    fn find_game_in(library: &String, app_id: &str, disk: &Disk) -> (r: Lookup<
        Option<(String, String)>,
    >)
        ensures
            r.deep_view() == install_in(disk@, library@, app_id@),
    {
        let name = joined(joined("appmanifest_", app_id).as_str(), ".acf");
        let manifest_file = join_path(library.as_str(), name.as_str());
        let manifest = match Self::parse_vdf_file(manifest_file.as_str(), disk) {
            Lookup::Needs(query) => {
                return Lookup::Needs(query);
            },
            Lookup::Done(manifest) => manifest,
        };
        match manifest.get("AppState.installdir") {
            None => Lookup::Done(None),
            Some(directory) => {
                let game_path = join_path(
                    join_path(library.as_str(), "common").as_str(),
                    directory.as_str(),
                );
                match probe(disk, game_path.as_str()) {
                    Lookup::Needs(query) => Lookup::Needs(query),
                    Lookup::Done(false) => Lookup::Done(None),
                    Lookup::Done(true) => Lookup::Done(Some((game_path, library.clone()))),
                }
            },
        }
    }

    /// The compatibility prefix of the application `app_id` in `library`.
    fn find_prefix_in(library: &str, app_id: &str, disk: &Disk) -> (r: Lookup<Option<String>>)
        ensures
            r.deep_view() == prefix_in(disk@, library@, app_id@),
    {
        let prefix = join_path(
            join_path(join_path(library, "compatdata").as_str(), app_id).as_str(),
            "pfx",
        );
        match probe(disk, prefix.as_str()) {
            Lookup::Needs(query) => Lookup::Needs(query),
            Lookup::Done(false) => Lookup::Done(None),
            Lookup::Done(true) => Lookup::Done(Some(prefix)),
        }
    }

    /// The compatibility prefix of the application `app_id`: that in
    /// `library_path` where one is given and has it, else that in the first
    /// library that has one.
    pub fn find_proton_prefix(&self, app_id: &str, library_path: Option<&str>, disk: &Disk) -> (r:
        Lookup<Option<String>>)
        ensures
            r.deep_view() == resolve_prefix(
                disk@,
                self.deep_view().library_folders,
                app_id@,
                library_path.deep_view(),
            ),
    {
        if let Some(library) = library_path {
            match Self::find_prefix_in(library, app_id, disk) {
                Lookup::Done(None) => {},
                other => {
                    return other;
                },
            }
        }
        let ghost libraries = self.library_folders.deep_view();
        let mut i: usize = 0;
        while i < self.library_folders.len()
            invariant
                i <= self.library_folders.len(),
                libraries == self.library_folders.deep_view(),
                libraries == self.deep_view().library_folders,
                resolve_prefix(disk@, libraries, app_id@, library_path.deep_view()) == first_prefix(
                    disk@,
                    libraries,
                    app_id@,
                    0,
                ),
                first_prefix(disk@, libraries, app_id@, 0) == first_prefix(
                    disk@,
                    libraries,
                    app_id@,
                    i as int,
                ),
            decreases self.library_folders.len() - i,
        {
            match Self::find_prefix_in(self.library_folders[i].as_str(), app_id, disk) {
                Lookup::Done(None) => {},
                other => {
                    return other;
                },
            }
            i = i + 1;
        }
        Lookup::Done(None)
    }

    /// What is known of the application `app_id`: its install directory and
    /// library and, where those were found, its compatibility prefix.
    pub fn get_game_info(&self, app_id: &str, disk: &Disk) -> (r: Lookup<GameInfo>)
        ensures
            r.deep_view() == game_info(disk@, self.deep_view().library_folders, app_id@),
            r matches Lookup::Done(info) ==> info.deep_view().wf(),
    {
        let (game_path, library_path) = match self.find_game_by_appid(app_id, disk) {
            Lookup::Needs(query) => {
                return Lookup::Needs(query);
            },
            Lookup::Done(None) => {
                return Lookup::Done(
                    GameInfo {
                        app_id: String::from_str(app_id),
                        game_path: None,
                        proton_prefix: None,
                        library_path: None,
                        found: false,
                    },
                );
            },
            Lookup::Done(Some(install)) => install,
        };
        match self.find_proton_prefix(app_id, Some(library_path.as_str()), disk) {
            Lookup::Needs(query) => Lookup::Needs(query),
            Lookup::Done(proton_prefix) => Lookup::Done(
                GameInfo {
                    app_id: String::from_str(app_id),
                    game_path: Some(game_path),
                    proton_prefix,
                    library_path: Some(library_path),
                    found: true,
                },
            ),
        }
    }
}

/// `distinct` repeats nothing, keeps every path and adds none, and leaves the
/// first path first.
pub proof fn lemma_distinct(paths: Seq<Seq<char>>)
    ensures
        distinct(paths).no_duplicates(),
        forall|path: Seq<char>| distinct(paths).contains(path) <==> paths.contains(path),
        paths.len() > 0 ==> distinct(paths).len() > 0 && distinct(paths)[0] == paths[0],
    decreases paths.len(),
{
    if paths.len() > 0 {
        let front = paths.drop_last();
        let before = distinct(front);
        lemma_distinct(front);
        let after = distinct(paths);
        assert forall|path: Seq<char>| after.contains(path) <==> paths.contains(path) by {
            if paths.contains(path) {
                let i = choose|i: int| 0 <= i < paths.len() && paths[i] == path;
                if i < front.len() {
                    assert(front[i] == path);
                    assert(front.contains(path));
                }
                if before.contains(path) {
                    let j = choose|j: int| 0 <= j < before.len() && before[j] == path;
                    assert(after[j] == path);
                } else {
                    assert(after[before.len() as int] == path);
                }
            }
            if after.contains(path) {
                let j = choose|j: int| 0 <= j < after.len() && after[j] == path;
                if j < before.len() {
                    assert(front.contains(path));
                } else {
                    assert(paths[paths.len() - 1] == path);
                }
            }
        }
        if front.len() > 0 {
            assert(front[0] == paths[0]);
        }
    }
}

/// No library is listed twice, whatever the library index repeats, and the
/// installation's own library comes first.
pub proof fn lemma_library_folders(root: Option<Seq<char>>, disk: DiskView)
    ensures
        library_folders(root, disk) matches LookupView::Done(folders) ==> (SteamGameFinderView {
            steam_root: root,
            library_folders: folders,
        }).wf(),
{
    if let Some(at) = root {
        let first = join(at, "steamapps"@);
        if let LookupView::Done(index) = document_at(disk, join(first, "libraryfolders.vdf"@)) {
            if let LookupView::Done(more) = indexed_libraries(disk, index, 0) {
                lemma_distinct(seq![first] + more);
            }
        }
    }
}

/// The first candidate wins: the search for an installation from
/// `candidates[from]` on ends at the first candidate, here the `k`-th, of
/// which it is not known that it does not qualify: with that candidate where
/// it qualifies, with a probe of it where that is not known yet. Where no
/// candidate qualifies it ends with nothing.
pub proof fn lemma_first_root(disk: DiskView, candidates: Seq<Seq<char>>, from: int) -> (k: int)
    requires
        0 <= from <= candidates.len(),
    ensures
        from <= k <= candidates.len(),
        forall|j: int|
            from <= j < k ==> qualifies_as_root(disk, #[trigger] candidates[j])
                == LookupView::Done(false),
        k == candidates.len() ==> first_root(disk, candidates, from) == LookupView::<
            Option<Seq<char>>,
        >::Done(None),
        k < candidates.len() ==> match qualifies_as_root(disk, candidates[k]) {
            LookupView::Done(found) => found && first_root(disk, candidates, from)
                == LookupView::Done(Some(candidates[k])),
            LookupView::Needs(query) => first_root(disk, candidates, from) == LookupView::<
                Option<Seq<char>>,
            >::Needs(query),
        },
    decreases candidates.len() - from,
{
    if from >= candidates.len() {
        from
    } else if qualifies_as_root(disk, candidates[from]) == LookupView::Done(false) {
        lemma_first_root(disk, candidates, from + 1)
    } else {
        from
    }
}

/// An installation that was found is one of the well-known directories, it
/// exists, and it holds a `steamapps` directory.
pub proof fn lemma_root_found(home: Seq<char>, disk: DiskView, root: Seq<char>)
    requires
        locate_root(home, disk) == LookupView::Done(Some(root)),
    ensures
        root_candidates(home).contains(root),
        disk.present(root) == Some(true),
        disk.present(join(root, "steamapps"@)) == Some(true),
{
    lemma_first_root(disk, root_candidates(home), 0);
}

/// The libraries that the index adds are those that it names, in a `path`
/// entry, and that exist: no other directory, and each of those.
pub proof fn lemma_indexed_libraries(
    disk: DiskView,
    entries: Seq<(Seq<char>, Seq<char>)>,
    from: int,
)
    requires
        0 <= from,
    ensures
        indexed_libraries(disk, entries, from) matches LookupView::Done(found) ==> {
            &&& forall|library: Seq<char>|
                found.contains(library) ==> exists|i: int|
                    from <= i < entries.len() && names_library((#[trigger] entries[i]).0)
                        && library == join(entries[i].1, "steamapps"@) && disk.present(library)
                        == Some(true)
            &&& forall|i: int|
                from <= i < entries.len() && names_library((#[trigger] entries[i]).0)
                    && disk.present(join(entries[i].1, "steamapps"@)) == Some(true)
                    ==> found.contains(join(entries[i].1, "steamapps"@))
        },
    decreases entries.len() - from,
{
    if from < entries.len() {
        lemma_indexed_libraries(disk, entries, from + 1);
        if let LookupView::Done(found) = indexed_libraries(disk, entries, from) {
            let rest = indexed_libraries(disk, entries, from + 1)->Done_0;
            let directory = join(entries[from].1, "steamapps"@);
            let added = names_library(entries[from].0) && disk.present(directory) == Some(true);
            assert(found == if added {
                seq![directory] + rest
            } else {
                rest
            });
            assert forall|library: Seq<char>| found.contains(library) implies exists|i: int|
                from <= i < entries.len() && names_library((#[trigger] entries[i]).0) && library
                    == join(entries[i].1, "steamapps"@) && disk.present(library) == Some(
                    true,
                ) by {
                let at = choose|at: int| 0 <= at < found.len() && found[at] == library;
                if added && at == 0 {
                    assert(names_library(entries[from].0));
                } else {
                    assert(rest.contains(library));
                }
            }
            assert forall|i: int|
                from <= i < entries.len() && names_library((#[trigger] entries[i]).0)
                    && disk.present(join(entries[i].1, "steamapps"@)) == Some(
                    true,
                ) implies found.contains(join(entries[i].1, "steamapps"@)) by {
                let library = join(entries[i].1, "steamapps"@);
                if i == from {
                    assert(found[0] == library);
                } else {
                    let at = choose|at: int| 0 <= at < rest.len() && rest[at] == library;
                    if added {
                        assert(found[at + 1] == library);
                    } else {
                        assert(found[at] == library);
                    }
                }
            }
        }
    }
}

/// The first library wins: the search for an install directory from
/// `libraries[from]` on ends at the first library, here the `k`-th, that is
/// not passed over, with what was found there, or with nothing where every
/// library is passed over.
pub proof fn lemma_first_install(
    disk: DiskView,
    libraries: Seq<Seq<char>>,
    app_id: Seq<char>,
    from: int,
) -> (k: int)
    requires
        0 <= from <= libraries.len(),
    ensures
        from <= k <= libraries.len(),
        forall|j: int|
            from <= j < k ==> install_in(disk, #[trigger] libraries[j], app_id)
                == LookupView::<Option<(Seq<char>, Seq<char>)>>::Done(None),
        k < libraries.len() ==> first_install(disk, libraries, app_id, from) == install_in(
            disk,
            libraries[k],
            app_id,
        ) && install_in(disk, libraries[k], app_id) != LookupView::<
            Option<(Seq<char>, Seq<char>)>,
        >::Done(None),
        k == libraries.len() ==> first_install(disk, libraries, app_id, from)
            == LookupView::<Option<(Seq<char>, Seq<char>)>>::Done(None),
    decreases libraries.len() - from,
{
    if from >= libraries.len() {
        from
    } else if install_in(disk, libraries[from], app_id) == LookupView::<
        Option<(Seq<char>, Seq<char>)>,
    >::Done(None) {
        lemma_first_install(disk, libraries, app_id, from + 1)
    } else {
        from
    }
}

/// A library whose manifest names an install directory that is not on disk
/// does not match, and the search goes on with the libraries behind it.
pub proof fn lemma_missing_install_directory(
    disk: DiskView,
    libraries: Seq<Seq<char>>,
    app_id: Seq<char>,
    i: int,
    manifest: Seq<char>,
    directory: Seq<char>,
)
    requires
        0 <= i < libraries.len(),
        disk.present(manifest_path(libraries[i], app_id)) == Some(true),
        disk.read(manifest_path(libraries[i], app_id)) == Some(
            Ok::<Seq<char>, Seq<char>>(manifest),
        ),
        value_of(parse_text(manifest), "AppState.installdir"@) == Some(directory),
        disk.present(join(join(libraries[i], "common"@), directory)) == Some(false),
    ensures
        install_in(disk, libraries[i], app_id) == LookupView::<
            Option<(Seq<char>, Seq<char>)>,
        >::Done(None),
        first_install(disk, libraries, app_id, i) == first_install(disk, libraries, app_id, i + 1),
{
}

/// An install directory that was found exists, lies in the library it is
/// reported with, and that library is one of those searched.
pub proof fn lemma_install_found(
    disk: DiskView,
    libraries: Seq<Seq<char>>,
    app_id: Seq<char>,
    game: Seq<char>,
    library: Seq<char>,
)
    requires
        first_install(disk, libraries, app_id, 0) == LookupView::Done(Some((game, library))),
    ensures
        libraries.contains(library),
        disk.present(game) == Some(true),
        exists|directory: Seq<char>| game == join(join(library, "common"@), directory),
{
    lemma_first_install(disk, libraries, app_id, 0);
}

/// The first library wins: the search for a prefix from `libraries[from]` on
/// ends at the first library, here the `k`-th, of which it is not known that
/// it holds none, with what is known there, or with nothing where no library
/// holds one.
pub proof fn lemma_first_prefix(
    disk: DiskView,
    libraries: Seq<Seq<char>>,
    app_id: Seq<char>,
    from: int,
) -> (k: int)
    requires
        0 <= from <= libraries.len(),
    ensures
        from <= k <= libraries.len(),
        forall|j: int|
            from <= j < k ==> disk.present(prefix_path(#[trigger] libraries[j], app_id)) == Some(
                false,
            ),
        k < libraries.len() ==> first_prefix(disk, libraries, app_id, from) == prefix_in(
            disk,
            libraries[k],
            app_id,
        ) && disk.present(prefix_path(libraries[k], app_id)) != Some(false),
        k == libraries.len() ==> first_prefix(disk, libraries, app_id, from) == LookupView::<
            Option<Seq<char>>,
        >::Done(None),
    decreases libraries.len() - from,
{
    if from >= libraries.len() {
        from
    } else if disk.present(prefix_path(libraries[from], app_id)) == Some(false) {
        lemma_first_prefix(disk, libraries, app_id, from + 1)
    } else {
        from
    }
}

/// Where no library holds a prefix of the application, the search from
/// `libraries[from]` on finds none.
pub proof fn lemma_first_prefix_none(
    disk: DiskView,
    libraries: Seq<Seq<char>>,
    app_id: Seq<char>,
    from: int,
)
    requires
        0 <= from,
        forall|i: int|
            0 <= i < libraries.len() ==> disk.present(
                prefix_path(#[trigger] libraries[i], app_id),
            ) == Some(false),
    ensures
        first_prefix(disk, libraries, app_id, from) == LookupView::<Option<Seq<char>>>::Done(None),
    decreases libraries.len() - from,
{
    if from < libraries.len() {
        lemma_first_prefix_none(disk, libraries, app_id, from + 1);
    }
}

/// Where neither a library nor the preferred one holds a prefix of the
/// application, none is found.
pub proof fn lemma_no_prefix(
    disk: DiskView,
    libraries: Seq<Seq<char>>,
    app_id: Seq<char>,
    preferred: Option<Seq<char>>,
)
    requires
        forall|i: int|
            0 <= i < libraries.len() ==> disk.present(
                prefix_path(#[trigger] libraries[i], app_id),
            ) == Some(false),
        preferred matches Some(library) ==> disk.present(prefix_path(library, app_id)) == Some(
            false,
        ),
    ensures
        resolve_prefix(disk, libraries, app_id, preferred) == LookupView::<
            Option<Seq<char>>,
        >::Done(None),
{
    lemma_first_prefix_none(disk, libraries, app_id, 0);
}

/// An application counts as found exactly where its install directory is
/// known; then its library is known too, and only then can a prefix be.
pub proof fn lemma_game_info_wf(disk: DiskView, libraries: Seq<Seq<char>>, app_id: Seq<char>)
    ensures
        game_info(disk, libraries, app_id) matches LookupView::Done(info) ==> info.wf()
            && info.app_id == app_id,
{
}

/// The finder that is set up is well formed: it lists no library twice, and
/// where it found an installation, that installation's own library comes
/// first.
pub proof fn lemma_finder_wf(home: Option<Seq<char>>, disk: DiskView)
    ensures
        finder_for(home, disk) matches LookupView::Done(finder) ==> finder.wf(),
{
    if let LookupView::Done(finder) = finder_for(home, disk) {
        lemma_library_folders(finder.steam_root, disk);
    }
}

/// Where no library holds a prefix of the application, what is known of it
/// has no prefix, whether or not its install directory was found.
pub proof fn lemma_game_info_without_prefix(
    disk: DiskView,
    libraries: Seq<Seq<char>>,
    app_id: Seq<char>,
)
    requires
        forall|i: int|
            0 <= i < libraries.len() ==> disk.present(
                prefix_path(#[trigger] libraries[i], app_id),
            ) == Some(false),
    ensures
        match game_info(disk, libraries, app_id) {
            LookupView::Done(info) => info.proton_prefix is None && info.found == (first_install(
                disk,
                libraries,
                app_id,
                0,
            ) matches LookupView::Done(Some(_))),
            LookupView::Needs(query) => first_install(disk, libraries, app_id, 0)
                == LookupView::<Option<(Seq<char>, Seq<char>)>>::Needs(query),
        },
{
    if let LookupView::Done(Some((game, library))) = first_install(disk, libraries, app_id, 0) {
        lemma_install_found(disk, libraries, app_id, game, library);
        lemma_no_prefix(disk, libraries, app_id, Some(library));
    }
}

/// The search for the installation asks only for what is not known yet, and
/// its result stays when more is observed.
pub proof fn lemma_locate_root_settles(home: Seq<char>, earlier: DiskView, later: DiskView)
    requires
        later.extends(earlier),
    ensures
        asks_anew(earlier, locate_root(home, earlier)),
        settled(locate_root(home, earlier), locate_root(home, later)),
{
    lemma_first_root_settles(root_candidates(home), 0, earlier, later);
}

/// The search through the candidates asks only for what is not known yet,
/// and its result stays when more is observed.
proof fn lemma_first_root_settles(
    candidates: Seq<Seq<char>>,
    from: int,
    earlier: DiskView,
    later: DiskView,
)
    requires
        later.extends(earlier),
    ensures
        asks_anew(earlier, first_root(earlier, candidates, from)),
        settled(first_root(earlier, candidates, from), first_root(later, candidates, from)),
    decreases candidates.len() - from,
{
    if 0 <= from < candidates.len() {
        lemma_first_root_settles(candidates, from + 1, earlier, later);
    }
}

/// Reading a document asks only for what is not known yet, and the document
/// stays when more is observed.
proof fn lemma_document_settles(path: Seq<char>, earlier: DiskView, later: DiskView)
    requires
        later.extends(earlier),
    ensures
        asks_anew(earlier, document_at(earlier, path)),
        settled(document_at(earlier, path), document_at(later, path)),
{
}

/// Listing the libraries of the index asks only for what is not known yet,
/// and the list stays when more is observed.
proof fn lemma_indexed_libraries_settle(
    entries: Seq<(Seq<char>, Seq<char>)>,
    from: int,
    earlier: DiskView,
    later: DiskView,
)
    requires
        later.extends(earlier),
    ensures
        asks_anew(earlier, indexed_libraries(earlier, entries, from)),
        settled(indexed_libraries(earlier, entries, from), indexed_libraries(later, entries, from)),
    decreases entries.len() - from,
{
    if 0 <= from < entries.len() {
        lemma_indexed_libraries_settle(entries, from + 1, earlier, later);
    }
}

/// The search for the libraries asks only for what is not known yet, and its
/// result stays when more is observed.
pub proof fn lemma_library_folders_settle(
    root: Option<Seq<char>>,
    earlier: DiskView,
    later: DiskView,
)
    requires
        later.extends(earlier),
    ensures
        asks_anew(earlier, library_folders(root, earlier)),
        settled(library_folders(root, earlier), library_folders(root, later)),
{
    if let Some(at) = root {
        let index = join(join(at, "steamapps"@), "libraryfolders.vdf"@);
        lemma_document_settles(index, earlier, later);
        if let LookupView::Done(entries) = document_at(earlier, index) {
            lemma_indexed_libraries_settle(entries, 0, earlier, later);
        }
    }
}

/// Setting up the finder asks only for what is not known yet, and the finder
/// stays the same when more is observed.
pub proof fn lemma_finder_settles(home: Option<Seq<char>>, earlier: DiskView, later: DiskView)
    requires
        later.extends(earlier),
    ensures
        asks_anew(earlier, finder_for(home, earlier)),
        settled(finder_for(home, earlier), finder_for(home, later)),
{
    let root = match home {
        None => None,
        Some(home) => {
            lemma_locate_root_settles(home, earlier, later);
            match locate_root(home, earlier) {
                LookupView::Done(root) => root,
                LookupView::Needs(_) => None,
            }
        },
    };
    lemma_library_folders_settle(root, earlier, later);
}

/// Looking into one library asks only for what is not known yet, and what
/// was found there stays when more is observed.
proof fn lemma_install_in_settles(
    library: Seq<char>,
    app_id: Seq<char>,
    earlier: DiskView,
    later: DiskView,
)
    requires
        later.extends(earlier),
    ensures
        asks_anew(earlier, install_in(earlier, library, app_id)),
        settled(install_in(earlier, library, app_id), install_in(later, library, app_id)),
{
    lemma_document_settles(manifest_path(library, app_id), earlier, later);
}

/// The search for an install directory asks only for what is not known yet,
/// and its result stays when more is observed.
pub proof fn lemma_first_install_settles(
    libraries: Seq<Seq<char>>,
    app_id: Seq<char>,
    from: int,
    earlier: DiskView,
    later: DiskView,
)
    requires
        later.extends(earlier),
    ensures
        asks_anew(earlier, first_install(earlier, libraries, app_id, from)),
        settled(
            first_install(earlier, libraries, app_id, from),
            first_install(later, libraries, app_id, from),
        ),
    decreases libraries.len() - from,
{
    if 0 <= from < libraries.len() {
        lemma_install_in_settles(libraries[from], app_id, earlier, later);
        lemma_first_install_settles(libraries, app_id, from + 1, earlier, later);
    }
}

/// The search through the libraries for a prefix asks only for what is not
/// known yet, and its result stays when more is observed.
proof fn lemma_first_prefix_settles(
    libraries: Seq<Seq<char>>,
    app_id: Seq<char>,
    from: int,
    earlier: DiskView,
    later: DiskView,
)
    requires
        later.extends(earlier),
    ensures
        asks_anew(earlier, first_prefix(earlier, libraries, app_id, from)),
        settled(
            first_prefix(earlier, libraries, app_id, from),
            first_prefix(later, libraries, app_id, from),
        ),
    decreases libraries.len() - from,
{
    if 0 <= from < libraries.len() {
        lemma_first_prefix_settles(libraries, app_id, from + 1, earlier, later);
    }
}

/// The search for a prefix asks only for what is not known yet, and its
/// result stays when more is observed.
pub proof fn lemma_resolve_prefix_settles(
    libraries: Seq<Seq<char>>,
    app_id: Seq<char>,
    preferred: Option<Seq<char>>,
    earlier: DiskView,
    later: DiskView,
)
    requires
        later.extends(earlier),
    ensures
        asks_anew(earlier, resolve_prefix(earlier, libraries, app_id, preferred)),
        settled(
            resolve_prefix(earlier, libraries, app_id, preferred),
            resolve_prefix(later, libraries, app_id, preferred),
        ),
{
    lemma_first_prefix_settles(libraries, app_id, 0, earlier, later);
}

/// Looking an application up asks only for what is not known yet, and what
/// is known of the application stays when more is observed.
pub proof fn lemma_game_info_settles(
    libraries: Seq<Seq<char>>,
    app_id: Seq<char>,
    earlier: DiskView,
    later: DiskView,
)
    requires
        later.extends(earlier),
    ensures
        asks_anew(earlier, game_info(earlier, libraries, app_id)),
        settled(game_info(earlier, libraries, app_id), game_info(later, libraries, app_id)),
{
    lemma_first_install_settles(libraries, app_id, 0, earlier, later);
    if let LookupView::Done(Some((game, library))) = first_install(earlier, libraries, app_id, 0) {
        lemma_resolve_prefix_settles(libraries, app_id, Some(library), earlier, later);
    }
}

} // verus!
