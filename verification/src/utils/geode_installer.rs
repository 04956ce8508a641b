//! What the installer decides: where the game is, which release of the mod
//! loader to fetch and from where, and what to do with each entry of its
//! archive. Fetching, unpacking and writing are its caller's part.

use crate::disk::{asks_anew, presence, probe, settled, Disk, DiskView, Lookup, LookupView};
use crate::errors::{result_view, InstallerError, InstallerErrorView};
use crate::paths::{join, join_path, show_path, shown};
use crate::text::joined;
use crate::utils::steam_game_finder::{game_info, GameInfo, GameInfoView, SteamGameFinder};
use vstd::prelude::*;

verus! {

/// The application whose installation is looked for.
pub const GD_APP_ID: &'static str = "322170";

/// Where the latest release of the mod loader is told.
pub const GEODE_API_URL: &'static str = "https://api.geode-sdk.org/v1/loader/versions/latest";

/// Below which address the releases of the mod loader lie.
pub const GEODE_GITHUB_URL: &'static str = "https://github.com/geode-sdk/geode/releases/download";

/// Where the mod loader goes: the game's directory, and the compatibility
/// prefix whose registry gets the override.
#[derive(Debug, Clone, PartialEq, Eq)]
pub struct InstallationPaths {
    pub game_path: String,
    pub proton_prefix: String,
}

impl DeepView for InstallationPaths {
    type V = (Seq<char>, Seq<char>);

    /// The game's directory and the prefix.
    open spec fn deep_view(&self) -> (Seq<char>, Seq<char>) {
        (self.game_path@, self.proton_prefix@)
    }
}

/// What of a reply of the release index the installer reads: the text of
/// the member `error`, and that of the member `tag` of the member
/// `payload`, each where it is there and is a string.
#[derive(Debug, Clone, PartialEq, Eq)]
pub struct ApiReply {
    pub error: Option<String>,
    pub tag: Option<String>,
}

impl DeepView for ApiReply {
    type V = (Option<Seq<char>>, Option<Seq<char>>);

    /// The error and the tag.
    open spec fn deep_view(&self) -> (Option<Seq<char>>, Option<Seq<char>>) {
        (self.error.deep_view(), self.tag.deep_view())
    }
}

/// The text that the JSON document `text` holds where `pointer` leads: none
/// where nothing is there or what is there is no string; or, where `text` is
/// no JSON document, what is wrong with it. A pointer names the members to
/// pass through, each behind a `/`.
pub uninterp spec fn json_text_at(text: Seq<char>, pointer: Seq<char>) -> Result<
    Option<Seq<char>>,
    Seq<char>,
>;

/// What was read of a JSON document, as contracts see it.
pub open spec fn text_view(read: Result<Option<String>, String>) -> Result<
    Option<Seq<char>>,
    Seq<char>,
> {
    match read {
        Ok(text) => Ok(text.deep_view()),
        Err(detail) => Err(detail@),
    }
}

/// The text that the JSON document `text` holds where `pointer` leads.
///
/// `serde_json::from_str` reads `text` as a JSON value or says what is wrong
/// with it; the error's `Display` gives the message. `Value::pointer` follows
/// the pointer from member to member and gives the value it leads to, if
/// there is one, and `Value::as_str` gives the text of a value that is a
/// string. All of this depends on `text` and `pointer` alone.
#[verifier::external_body]
fn read_json_text(text: &str, pointer: &str) -> (r: Result<Option<String>, String>)
    ensures
        text_view(r) == json_text_at(text@, pointer@),
{
    match serde_json::from_str::<serde_json::Value>(text) {
        Ok(json) => Ok(
            json.pointer(pointer).and_then(serde_json::Value::as_str).map(String::from),
        ),
        Err(error) => Err(error.to_string()),
    }
}

/// What `text` holds as a reply of the release index: the text of its member
/// `error` and that of the member `tag` of its member `payload`; or, where
/// `text` is no JSON document, what is wrong with it.
pub open spec fn api_reply(text: Seq<char>) -> Result<
    (Option<Seq<char>>, Option<Seq<char>>),
    Seq<char>,
> {
    match json_text_at(text, "/error"@) {
        Err(detail) => Err(detail),
        Ok(error) => match json_text_at(text, "/payload/tag"@) {
            Err(detail) => Err(detail),
            Ok(tag) => Ok((error, tag)),
        },
    }
}

/// A reply, or what was wrong with its text, as contracts see it.
pub open spec fn reply_view(reply: Result<ApiReply, String>) -> Result<
    (Option<Seq<char>>, Option<Seq<char>>),
    Seq<char>,
> {
    match reply {
        Ok(reply) => Ok(reply.deep_view()),
        Err(detail) => Err(detail@),
    }
}

/// The tag of the latest release that a reply of the release index names.
/// A text that is no JSON document is an error; so is a reply that reports an
/// error of its own, one that is not empty; so is a reply without a tag.
pub open spec fn latest_tag(
    reply: Result<(Option<Seq<char>>, Option<Seq<char>>), Seq<char>>,
) -> Result<Seq<char>, InstallerErrorView> {
    match reply {
        Err(detail) => Err(InstallerErrorView::Unknown(detail)),
        Ok((Some(error), _)) if error.len() > 0 => Err(
            InstallerErrorView::Unknown("Geode API error: "@ + error),
        ),
        Ok((_, Some(tag))) => Ok(tag),
        Ok((_, None)) => Err(
            InstallerErrorView::Unknown("Failed to extract version tag from API response"@),
        ),
    }
}

/// The address of the archive of the release `tag`.
pub open spec fn download_url(tag: Seq<char>) -> Seq<char> {
    GEODE_GITHUB_URL@ + "/"@ + tag + "/geode-"@ + tag + "-win.zip"@
}

/// Where the mod loader goes for an application of which `info` is known.
/// An application that was not found is an error, and so is one without a
/// compatibility prefix.
pub open spec fn installation_paths(info: GameInfoView) -> Result<
    (Seq<char>, Seq<char>),
    InstallerErrorView,
> {
    match (info.game_path, info.proton_prefix) {
        (None, _) => Err(
            InstallerErrorView::Installation("Can't find Geometry Dash installation"@),
        ),
        (Some(_), None) => Err(
            InstallerErrorView::Installation("Can't find Proton prefix for Geometry Dash"@),
        ),
        (Some(game), Some(prefix)) => Ok((game, prefix)),
    }
}

/// Whether the prefix and the game's directory are there: an error names
/// the first that is not.
pub open spec fn paths_valid(disk: DiskView, prefix: Seq<char>, game_dir: Seq<char>) -> LookupView<
    Result<(), InstallerErrorView>,
> {
    match presence(disk, prefix) {
        LookupView::Needs(query) => LookupView::Needs(query),
        LookupView::Done(false) => LookupView::Done(
            Err(InstallerErrorView::Unknown("Prefix directory doesn't exist: "@ + shown(prefix))),
        ),
        LookupView::Done(true) => match presence(disk, game_dir) {
            LookupView::Needs(query) => LookupView::Needs(query),
            LookupView::Done(false) => LookupView::Done(
                Err(
                    InstallerErrorView::Unknown(
                        "Game directory doesn't exist: "@ + shown(game_dir),
                    ),
                ),
            ),
            LookupView::Done(true) => LookupView::Done(Ok(())),
        },
    }
}

/// What an answer of a server means for the request: an answer whose status
/// is no success is an error that shows the status.
pub open spec fn status_checked(success: bool, status: Seq<char>) -> Result<(), InstallerErrorView> {
    if success {
        Ok(())
    } else {
        Err(InstallerErrorView::Unknown("HTTP error "@ + status))
    }
}

/// What is to be done with one entry of the archive.
#[derive(Debug, Clone, PartialEq, Eq)]
pub enum EntryAction {
    /// Nothing: the entry's path would lead out of the destination.
    Skip,
    /// The directory is to be made, and given the mode where there is one.
    CreateDirectory { path: String, mode: Option<u32> },
    /// The file is to be written, and given the mode where there is one.
    WriteFile { path: String, mode: Option<u32> },
}

/// An [`EntryAction`] as contracts see it.
pub enum EntryActionView {
    Skip,
    CreateDirectory { path: Seq<char>, mode: Option<u32> },
    WriteFile { path: Seq<char>, mode: Option<u32> },
}

impl DeepView for EntryAction {
    type V = EntryActionView;

    open spec fn deep_view(&self) -> EntryActionView {
        match self {
            EntryAction::Skip => EntryActionView::Skip,
            EntryAction::CreateDirectory { path, mode } => EntryActionView::CreateDirectory {
                path: path@,
                mode: *mode,
            },
            EntryAction::WriteFile { path, mode } => EntryActionView::WriteFile {
                path: path@,
                mode: *mode,
            },
        }
    }
}

/// What is to be done with the entry `name` of an archive that is unpacked
/// into `destination`. `enclosed` is the entry's path where that path stays
/// inside the directory it is unpacked into; an entry without one is
/// skipped. An entry whose name ends in `/` is a directory. The mode that the
/// archive recorded for the entry is kept.
pub open spec fn entry_action(
    destination: Seq<char>,
    name: Seq<char>,
    enclosed: Option<Seq<char>>,
    mode: Option<u32>,
) -> EntryActionView {
    match enclosed {
        None => EntryActionView::Skip,
        Some(inside) => if name.len() > 0 && name.last() == '/' {
            EntryActionView::CreateDirectory { path: join(destination, inside), mode }
        } else {
            EntryActionView::WriteFile { path: join(destination, inside), mode }
        },
    }
}

/// The installer's view of the platform.
pub struct GeodeInstaller {
    finder: SteamGameFinder,
}

impl GeodeInstaller {
    /// The installer for what `finder` found.
    pub fn new(finder: SteamGameFinder) -> (r: GeodeInstaller)
        ensures
            r.finder().deep_view() == finder.deep_view(),
    {
        GeodeInstaller { finder }
    }

    /// What was found of the platform.
    pub closed spec fn finder(&self) -> SteamGameFinder {
        self.finder
    }

    /// What was found of the platform.
    pub fn get_finder(&self) -> (r: &SteamGameFinder)
        ensures
            r.deep_view() == self.finder().deep_view(),
    {
        &self.finder
    }

    /// The platform's installation directory. That none was found is an
    /// error here.
    pub fn steam_root(&self) -> (r: Result<&String, InstallerError>)
        ensures
            match self.finder().deep_view().steam_root {
                Some(root) => r matches Ok(found) && found@ == root,
                None => r matches Err(error) && error.deep_view()
                    == InstallerErrorView::Installation("Can't find Steam installation"@),
            },
    {
        match self.finder.get_steam_root() {
            Some(root) => Ok(root),
            None => Err(
                InstallerError::Installation(String::from_str("Can't find Steam installation")),
            ),
        }
    }

    /// Where the game is installed and its compatibility prefix, looked up
    /// in the platform's libraries.
    pub fn locate_geometry_dash(&self, disk: &Disk) -> (r: Lookup<
        Result<InstallationPaths, InstallerError>,
    >)
        ensures
            match r {
                Lookup::Done(result) => game_info(
                    disk@,
                    self.finder().deep_view().library_folders,
                    GD_APP_ID@,
                ) matches LookupView::Done(info) && result_view(result) == installation_paths(info),
                Lookup::Needs(query) => game_info(
                    disk@,
                    self.finder().deep_view().library_folders,
                    GD_APP_ID@,
                ) == LookupView::<GameInfoView>::Needs(query.deep_view()),
            },
    {
        match self.finder.get_game_info(GD_APP_ID, disk) {
            Lookup::Needs(query) => Lookup::Needs(query),
            Lookup::Done(info) => Lookup::Done(Self::paths_of(info)),
        }
    }

    /// Where the mod loader goes for an application of which `info` is
    /// known.
    pub fn paths_of(info: GameInfo) -> (r: Result<InstallationPaths, InstallerError>)
        ensures
            result_view(r) == installation_paths(info.deep_view()),
    {
        let game_path = match info.game_path {
            Some(game_path) => game_path,
            None => {
                return Err(
                    InstallerError::Installation(
                        String::from_str("Can't find Geometry Dash installation"),
                    ),
                );
            },
        };
        match info.proton_prefix {
            Some(proton_prefix) => Ok(InstallationPaths { game_path, proton_prefix }),
            None => Err(
                InstallerError::Installation(
                    String::from_str("Can't find Proton prefix for Geometry Dash"),
                ),
            ),
        }
    }

    /// Whether the prefix and the game's directory are there.
    pub fn validate_paths(prefix: &str, game_dir: &str, disk: &Disk) -> (r: Lookup<
        Result<(), InstallerError>,
    >)
        ensures
            match r {
                Lookup::Done(result) => paths_valid(disk@, prefix@, game_dir@) == LookupView::Done(
                    result_view(result),
                ),
                Lookup::Needs(query) => paths_valid(disk@, prefix@, game_dir@) == LookupView::<
                    Result<(), InstallerErrorView>,
                >::Needs(query.deep_view()),
            },
    {
        match probe(disk, prefix) {
            Lookup::Needs(query) => {
                return Lookup::Needs(query);
            },
            Lookup::Done(false) => {
                return Lookup::Done(
                    Err(
                        InstallerError::Unknown(
                            joined("Prefix directory doesn't exist: ", show_path(prefix).as_str()),
                        ),
                    ),
                );
            },
            Lookup::Done(true) => {},
        }
        match probe(disk, game_dir) {
            Lookup::Needs(query) => Lookup::Needs(query),
            Lookup::Done(false) => Lookup::Done(
                Err(
                    InstallerError::Unknown(
                        joined("Game directory doesn't exist: ", show_path(game_dir).as_str()),
                    ),
                ),
            ),
            Lookup::Done(true) => Lookup::Done(Ok(())),
        }
    }

    /// What an answer of a server means for the request, where `success`
    /// says whether its status is one, and `status` shows the status.
    pub fn check_status(success: bool, status: &str) -> (r: Result<(), InstallerError>)
        ensures
            result_view(r) == status_checked(success, status@),
    {
        if success {
            Ok(())
        } else {
            Err(InstallerError::Unknown(joined("HTTP error ", status)))
        }
    }

    /// The address of the archive of the release `tag`.
    pub fn get_download_url(tag: &str) -> (r: String)
        ensures
            r@ == download_url(tag@),
    {
        let mut url = String::from_str(GEODE_GITHUB_URL);
        url.append("/");
        url.append(tag);
        url.append("/geode-");
        url.append(tag);
        url.append("-win.zip");
        url
    }

    /// The tag of the latest release that `reply` names.
    pub fn tag_of(reply: Result<ApiReply, String>) -> (r: Result<String, InstallerError>)
        ensures
            result_view(r) == latest_tag(reply_view(reply)),
    {
        let reply = match reply {
            Ok(reply) => reply,
            Err(detail) => {
                return Err(InstallerError::Unknown(detail));
            },
        };
        if let Some(error) = reply.error {
            if !error.as_str().is_empty() {
                return Err(InstallerError::Unknown(joined("Geode API error: ", error.as_str())));
            }
        }
        match reply.tag {
            Some(tag) => Ok(tag),
            None => Err(
                InstallerError::Unknown(
                    String::from_str("Failed to extract version tag from API response"),
                ),
            ),
        }
    }

    /// What `text` holds as a reply of the release index.
    pub fn read_api_reply(text: &str) -> (r: Result<ApiReply, String>)
        ensures
            reply_view(r) == api_reply(text@),
    {
        let error = match read_json_text(text, "/error") {
            Ok(error) => error,
            Err(detail) => {
                return Err(detail);
            },
        };
        match read_json_text(text, "/payload/tag") {
            Ok(tag) => Ok(ApiReply { error, tag }),
            Err(detail) => Err(detail),
        }
    }

    /// The tag of the latest release that `response`, the answer of the
    /// release index, names.
    pub fn fetch_latest_tag(response: &str) -> (r: Result<String, InstallerError>)
        ensures
            result_view(r) == latest_tag(api_reply(response@)),
    {
        Self::tag_of(Self::read_api_reply(response))
    }

    /// What is to be done with the entry `name` of an archive that is
    /// unpacked into `destination`.
    pub fn extract_zip_entry(
        destination: &str,
        name: &str,
        enclosed: Option<&str>,
        mode: Option<u32>,
    ) -> (r: EntryAction)
        ensures
            r.deep_view() == entry_action(destination@, name@, enclosed.deep_view(), mode),
    {
        let inside = match enclosed {
            Some(inside) => inside,
            None => {
                return EntryAction::Skip;
            },
        };
        let path = join_path(destination, inside);
        let length = name.unicode_len();
        if length > 0 && name.get_char(length - 1) == '/' {
            EntryAction::CreateDirectory { path, mode }
        } else {
            EntryAction::WriteFile { path, mode }
        }
    }
}

/// Checking the two directories asks only for what is not known yet, and
/// the answer stays when more is observed.
pub proof fn lemma_paths_valid_settles(
    prefix: Seq<char>,
    game_dir: Seq<char>,
    earlier: DiskView,
    later: DiskView,
)
    requires
        later.extends(earlier),
    ensures
        asks_anew(earlier, paths_valid(earlier, prefix, game_dir)),
        settled(paths_valid(earlier, prefix, game_dir), paths_valid(later, prefix, game_dir)),
{
}

} // verus!
