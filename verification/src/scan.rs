//! Which files and folders an ingest reads.
//!
//! The functions here decide of one path what is skipped, what is a source,
//! and where a walk goes on.
use vstd::prelude::*;

use crate::bytes::same_bytes;
use crate::cards::{has_extension, name_or_empty, name_or_empty_of, path_has_extension};
use crate::config::{expand_tilde, expanded, skips, Config};
use crate::names::{
    conversations_json, is_chatexport_dir_name, is_chatexport_result_json,
    is_conversations_json_name, is_result_json_name, is_user_json_name, law_inner_name,
    BACKEND_FILE_NAME, RESULT_FILE_NAME,
};
use crate::paths::{
    components, components_of, file_name, file_name_of, is_under, join_path, joined,
    law_joined_name, law_joined_two, law_name_and_extension, name_extension, opt_str, plain_name,
    same_path, sort_paths, sorted_paths, under,
};
use crate::sessions::{is_named, named};
use crate::text::{cat, lower, same_ascii, same_str, starts, starts_with, views};
use crate::zip::{is_zip_path, zip_path};
use crate::Error;

verus! {

/// The auth file beside a backend file.
pub const AUTH_FILE_NAME: &'static str = "prod-mc-auth-mgmt-api.json";

/// The billing file beside a backend file.
pub const BILLING_FILE_NAME: &'static str = "prod-mc-billing.json";

/// The folder of uploaded files in a dump.
pub const ASSET_SERVER_DIR_NAME: &'static str = "prod-mc-asset-server";

/// The session index of a home directory.
pub const SESSION_SEARCH_SQLITE_NAME: &'static str = "session_search.sqlite";

/// A database that is never read as chats.
pub const GROK_OSS_DB_NAME: &'static str = "grok_oss.db";

/// Folder levels that a dump is searched.
pub const WALK_DEPTH: u32 = 8;

/// Folder levels that a social export is searched.
pub const TREE_DEPTH: u32 = 32;

/// What a directory entry is. Symbolic links are told apart.
#[derive(Clone, Copy, Debug, PartialEq, Eq, Structural)]
pub enum NodeKind {
    Symlink,
    Directory,
    File,
    Other,
}

/// What a walk does with a directory entry.
#[derive(Clone, Copy, Debug, PartialEq, Eq, Structural)]
pub enum WalkStep {
    Skip,
    Descend,
    /// A file that is wanted.
    Keep,
    /// A zip that is wanted when it is a known export.
    Zip,
}

/// How a sqlite file starts.
pub open spec fn sqlite_magic() -> Seq<u8> {
    seq![83u8, 81, 76, 105, 116, 101, 32, 102, 111, 114, 109, 97, 116, 32, 51, 0]
}

/// Whether a file that starts with `head` is a sqlite file.
pub fn is_sqlite_magic(head: &[u8]) -> (r: bool)
    ensures
        r == (head@.len() >= 16 && head@.take(16) == sqlite_magic()),
{
    if head.len() < 16 {
        return false;
    }
    let magic: [u8; 16] = [83, 81, 76, 105, 116, 101, 32, 102, 111, 114, 109, 97, 116, 32, 51, 0];
    proof {
        assert(magic@ =~= sqlite_magic());
    }
    let start = vstd::slice::slice_subrange(head, 0, 16);
    proof {
        assert(start@ =~= head@.take(16));
    }
    same_bytes(start, &magic)
}

/// What the name of a file says of it being a session index. `None`: the
/// file has to be looked at.
pub fn session_sqlite_by_name(path: &str) -> (r: Option<bool>)
    ensures
        r == (if named(path@, GROK_OSS_DB_NAME@) {
            Some(false)
        } else if named(path@, SESSION_SEARCH_SQLITE_NAME@) {
            Some(true)
        } else {
            None
        }),
{
    if is_named(path, GROK_OSS_DB_NAME) {
        Some(false)
    } else if is_named(path, SESSION_SEARCH_SQLITE_NAME) {
        Some(true)
    } else {
        None
    }
}

/// Whether a file is a session index. `docs`: it is a sqlite file with a
/// table of sessions.
pub fn is_session_sqlite_path(path: &str, docs: bool) -> (r: bool)
    ensures
        r == (!named(path@, GROK_OSS_DB_NAME@) && (named(path@, SESSION_SEARCH_SQLITE_NAME@)
            || docs)),
{
    match session_sqlite_by_name(path) {
        Some(b) => b,
        None => docs,
    }
}

/// A folder `reports` in a folder `.agents`.
pub open spec fn reports_dir(path: Seq<char>) -> bool {
    let all = components(path);
    all.len() >= 2 && all.last() == "reports"@ && all[all.len() - 2] == ".agents"@
}

/// Whether a path is a folder `reports` in a folder `.agents`.
pub fn is_agents_reports_dir(path: &str) -> (r: bool)
    ensures
        r == reports_dir(path@),
{
    let all = components_of(path);
    let n: usize = all.len();
    proof {
        assert(views(all@).len() == n);
        if n >= 2 {
            assert(views(all@).last() == all@[n - 1]@);
            assert(views(all@)[n - 2] == all@[n - 2]@);
        }
    }
    n >= 2 && same_str(&all[n - 1], "reports") && same_str(&all[n - 2], ".agents")
}

/// Whether a file is Markdown.
pub fn is_markdown_file(path: &str) -> (r: bool)
    ensures
        r == has_extension(path@, "md"@),
{
    path_has_extension(path, "md")
}

/// Whether a file is a backend file.
pub fn is_backend_file_name(path: &str) -> (r: bool)
    ensures
        r == (file_name(path@) == Some(BACKEND_FILE_NAME@)),
{
    match file_name_of(path) {
        Some(name) => same_str(&name, BACKEND_FILE_NAME),
        None => false,
    }
}

/// The name of a trash folder of a volume.
pub open spec fn trash_folder(name: Seq<char>) -> bool {
    name == ".Trash"@ || starts(name, ".Trash-"@)
}

/// Whether a name is that of a trash folder of a volume.
pub fn skip_system_trash_walk_name(name: &str) -> (r: bool)
    ensures
        r == trash_folder(name@),
{
    same_str(name, ".Trash") || starts_with(name, ".Trash-")
}

/// The name of a blocked sandbox folder.
pub open spec fn sandbox_name(name: Seq<char>) -> bool {
    starts(name, "sandbox-blocked-dir"@)
}

/// Whether a name is that of a blocked sandbox folder.
pub fn is_sandbox_blocked_name(name: &str) -> (r: bool)
    ensures
        r == sandbox_name(name@),
{
    starts_with(name, "sandbox-blocked-dir")
}

/// A name that no Markdown walk enters.
pub open spec fn walk_skips(name: Seq<char>) -> bool {
    ||| name == ".git"@
    ||| name == "node_modules"@
    ||| name == ".obsidian"@
    ||| trash_folder(name)
    ||| sandbox_name(name)
}

/// Whether no Markdown walk enters a name.
pub fn skip_walk_name(name: &str) -> (r: bool)
    ensures
        r == walk_skips(name@),
{
    same_str(name, ".git") || same_str(name, "node_modules") || same_str(name, ".obsidian")
        || skip_system_trash_walk_name(name) || is_sandbox_blocked_name(name)
}

/// The data directory for a scan of `home`: only that of the user whose
/// home is scanned.
pub open spec fn xdg_home(
    home: Seq<char>,
    process_home: Option<Seq<char>>,
    xdg: Option<Seq<char>>,
) -> Option<Seq<char>> {
    if process_home is Some && process_home->0.len() > 0 && components(process_home->0)
        == components(home) && xdg is Some && xdg->0.len() > 0 {
        xdg
    } else {
        None
    }
}

/// The data directory for a scan of `home`. `process_home` and `xdg` are
/// the variables `HOME` and `XDG_DATA_HOME`.
pub fn scan_xdg_data_home<'a>(
    home: &str,
    process_home: Option<&str>,
    xdg: Option<&'a str>,
) -> (r: Option<&'a str>)
    ensures
        opt_str(r) == xdg_home(home@, opt_str(process_home), opt_str(xdg)),
{
    match process_home {
        Some(p) => {
            if p.is_empty() || !same_path(p, home) {
                return None;
            }
            match xdg {
                Some(x) => if x.is_empty() {
                    None
                } else {
                    Some(x)
                },
                None => None,
            }
        },
        None => None,
    }
}

/// Why a home scan skips a folder name.
pub open spec fn name_skip(name: Seq<char>) -> Option<Seq<char>> {
    if sandbox_name(name) {
        Some("Grok OSS blocked sandbox directory"@)
    } else if name == ".git"@ {
        Some("directory named .git"@)
    } else if name == "node_modules"@ {
        Some("directory named node_modules"@)
    } else if name == "target"@ {
        Some("directory named target"@)
    } else if name == ".cache"@ {
        Some("directory named .cache"@)
    } else if name == ".cargo"@ {
        Some("directory named .cargo"@)
    } else if name == ".rustup"@ {
        Some("directory named .rustup"@)
    } else if name == ".npm"@ {
        Some("directory named .npm"@)
    } else if name == ".nvm"@ {
        Some("directory named .nvm"@)
    } else if name == "Steam"@ {
        Some("directory named Steam"@)
    } else if name == "lutris"@ {
        Some("Lutris data directory"@)
    } else if name == "nix"@ {
        Some("directory named nix"@)
    } else if name == "proc"@ {
        Some("directory named proc"@)
    } else if name == ".config"@ {
        Some("directory named .config"@)
    } else {
        None
    }
}

/// Why a home scan skips a path.
pub open spec fn scan_skip(
    home: Seq<char>,
    path: Seq<char>,
    config: Config,
    xdg: Option<Seq<char>>,
) -> Option<Seq<char>> {
    let share = joined(joined(home, ".local"@), "share"@);
    if under(path, expanded(config.memex_dir@, home)) {
        Some("$HOME/memex is the archive destination, not a source"@)
    } else if under(path, joined(home, ".config"@)) {
        Some("directory named .config"@)
    } else if under(path, joined(share, "lutris"@)) {
        Some("Lutris data directory"@)
    } else if under(path, joined(share, "Steam"@)) {
        Some("Steam data directory"@)
    } else if under(path, joined(share, "TelegramDesktop"@)) {
        Some("Telegram Desktop tdata directory, not a JSON export"@)
    } else if under(path, joined(joined(home, "majestic"@), "tests"@)) {
        Some("crate test fixtures"@)
    } else if skips(config, path, home, xdg) {
        Some("skip_directories or system trash"@)
    } else {
        match file_name(path) {
            Some(name) => name_skip(name),
            None => None,
        }
    }
}

fn name_skip_reason(name: &str) -> (r: Option<&'static str>)
    ensures
        opt_str(r) == name_skip(name@),
{
    if is_sandbox_blocked_name(name) {
        Some("Grok OSS blocked sandbox directory")
    } else if same_str(name, ".git") {
        Some("directory named .git")
    } else if same_str(name, "node_modules") {
        Some("directory named node_modules")
    } else if same_str(name, "target") {
        Some("directory named target")
    } else if same_str(name, ".cache") {
        Some("directory named .cache")
    } else if same_str(name, ".cargo") {
        Some("directory named .cargo")
    } else if same_str(name, ".rustup") {
        Some("directory named .rustup")
    } else if same_str(name, ".npm") {
        Some("directory named .npm")
    } else if same_str(name, ".nvm") {
        Some("directory named .nvm")
    } else if same_str(name, "Steam") {
        Some("directory named Steam")
    } else if same_str(name, "lutris") {
        Some("Lutris data directory")
    } else if same_str(name, "nix") {
        Some("directory named nix")
    } else if same_str(name, "proc") {
        Some("directory named proc")
    } else if same_str(name, ".config") {
        Some("directory named .config")
    } else {
        None
    }
}

/// Why a home scan skips a path. `xdg` is the data directory for the scan.
pub fn home_scan_skip_reason(home: &str, path: &str, config: &Config, xdg: Option<&str>) -> (r:
    Option<&'static str>)
    ensures
        opt_str(r) == scan_skip(home@, path@, *config, opt_str(xdg)),
{
    let share = join_path(&join_path(home, ".local"), "share");
    if is_under(path, &expand_tilde(&config.memex_dir, home)) {
        return Some("$HOME/memex is the archive destination, not a source");
    }
    if is_under(path, &join_path(home, ".config")) {
        return Some("directory named .config");
    }
    if is_under(path, &join_path(&share, "lutris")) {
        return Some("Lutris data directory");
    }
    if is_under(path, &join_path(&share, "Steam")) {
        return Some("Steam data directory");
    }
    if is_under(path, &join_path(&share, "TelegramDesktop")) {
        return Some("Telegram Desktop tdata directory, not a JSON export");
    }
    if is_under(path, &join_path(&join_path(home, "majestic"), "tests")) {
        return Some("crate test fixtures");
    }
    if config.skips_directory(path, home, xdg) {
        return Some("skip_directories or system trash");
    }
    match file_name_of(path) {
        Some(name) => name_skip_reason(&name),
        None => None,
    }
}

/// The memex directory is never a source of a home scan.
pub proof fn law_memex_is_no_source(
    home: Seq<char>,
    path: Seq<char>,
    config: Config,
    xdg: Option<Seq<char>>,
)
    requires
        under(path, expanded(config.memex_dir@, home)),
    ensures
        scan_skip(home, path, config, xdg) is Some,
{
}

/// What a home scan knows of a folder before it lists it.
#[derive(Clone, Copy, Debug, PartialEq, Eq, Structural)]
pub struct DirMarks {
    /// It holds a folder `.obsidian`.
    pub obsidian: bool,
    pub chatgpt: bool,
    pub facebook: bool,
    pub twitter: bool,
}

/// Whether a folder is itself a source of a home scan. It is not entered.
pub fn home_dir_is_source(dir: &str, marks: DirMarks) -> (r: bool)
    ensures
        r == (marks.obsidian || reports_dir(dir@) || marks.chatgpt || marks.facebook
            || marks.twitter),
{
    marks.obsidian || is_agents_reports_dir(dir) || marks.chatgpt || marks.facebook
        || marks.twitter
}

/// What a home scan does with an entry that it does not skip by name.
#[derive(Clone, Copy, Debug, PartialEq, Eq, Structural)]
pub enum HomeStep {
    /// A symbolic link.
    SkipLink,
    /// The folder `.grok`: only its `sessions` are entered, when there are
    /// two levels left.
    Sessions(bool),
    Descend,
    Ignore,
    Source,
    /// A session index, when it holds sessions.
    SessionIndex,
    /// A zip, when it is a known export.
    Zip,
}

/// What a home scan does with an entry. `depth` is how many levels are left.
pub open spec fn scan_step(path: Seq<char>, kind: NodeKind, depth: u32) -> HomeStep {
    let name = file_name(path);
    match kind {
        NodeKind::Symlink => HomeStep::SkipLink,
        NodeKind::Directory => if name == Some(".grok"@) {
            HomeStep::Sessions(depth > 1)
        } else if depth == 0 {
            HomeStep::Ignore
        } else {
            HomeStep::Descend
        },
        NodeKind::File => if name == Some(BACKEND_FILE_NAME@) || name == Some(RESULT_FILE_NAME@) {
            HomeStep::Source
        } else if name == Some(SESSION_SEARCH_SQLITE_NAME@) {
            HomeStep::SessionIndex
        } else if zip_path(path) {
            HomeStep::Zip
        } else {
            HomeStep::Ignore
        },
        NodeKind::Other => HomeStep::Ignore,
    }
}

/// Whether the file name is exactly `want`.
fn name_is(path: &str, want: &str) -> (r: bool)
    ensures
        r == (file_name(path@) == Some(want@)),
{
    match file_name_of(path) {
        Some(name) => same_str(&name, want),
        None => false,
    }
}

/// What a home scan does with an entry.
pub fn home_step(path: &str, kind: NodeKind, depth: u32) -> (r: HomeStep)
    ensures
        r == scan_step(path@, kind, depth),
{
    match kind {
        NodeKind::Symlink => HomeStep::SkipLink,
        NodeKind::Directory => if name_is(path, ".grok") {
            HomeStep::Sessions(depth > 1)
        } else if depth == 0 {
            HomeStep::Ignore
        } else {
            HomeStep::Descend
        },
        NodeKind::File => if name_is(path, BACKEND_FILE_NAME) || name_is(path, RESULT_FILE_NAME) {
            HomeStep::Source
        } else if name_is(path, SESSION_SEARCH_SQLITE_NAME) {
            HomeStep::SessionIndex
        } else if is_zip_path(path) {
            HomeStep::Zip
        } else {
            HomeStep::Ignore
        },
        NodeKind::Other => HomeStep::Ignore,
    }
}

/// A home scan never follows a symbolic link, and enters no folder below the
/// levels that are left: one for a folder, two for the `sessions` in `.grok`.
pub proof fn law_scan_stays_bounded(path: Seq<char>, kind: NodeKind, depth: u32)
    ensures
        kind == NodeKind::Symlink ==> scan_step(path, kind, depth) == HomeStep::SkipLink,
        depth == 0 ==> scan_step(path, kind, depth) != HomeStep::Descend,
        depth <= 1 ==> scan_step(path, kind, depth) != HomeStep::Sessions(true),
{
}

/// What the walk for sources does with an entry of a dump.
pub open spec fn source_step(
    path: Seq<char>,
    kind: NodeKind,
    home: Seq<char>,
    config: Config,
    xdg: Option<Seq<char>>,
) -> WalkStep {
    let name = name_or_empty(path);
    let skipped = skips(config, path, home, xdg);
    match kind {
        NodeKind::File => if !skipped && zip_path(path) {
            WalkStep::Zip
        } else {
            WalkStep::Skip
        },
        NodeKind::Directory => if name == "assets"@ || name == ASSET_SERVER_DIR_NAME@
            || trash_folder(name) || skipped {
            WalkStep::Skip
        } else {
            WalkStep::Descend
        },
        _ => WalkStep::Skip,
    }
}

/// What the walk for sources does with an entry of a dump.
pub fn walk_sources_step(
    path: &str,
    kind: NodeKind,
    home: &str,
    config: &Config,
    xdg: Option<&str>,
) -> (r: WalkStep)
    ensures
        r == source_step(path@, kind, home@, *config, opt_str(xdg)),
{
    let name = name_or_empty_of(path);
    match kind {
        NodeKind::File => if !config.skips_directory(path, home, xdg) && is_zip_path(path) {
            WalkStep::Zip
        } else {
            WalkStep::Skip
        },
        NodeKind::Directory => if same_str(&name, "assets") || same_str(
            &name,
            ASSET_SERVER_DIR_NAME,
        ) || skip_system_trash_walk_name(&name) || config.skips_directory(path, home, xdg) {
            WalkStep::Skip
        } else {
            WalkStep::Descend
        },
        _ => WalkStep::Skip,
    }
}

/// A folder that Telegram Desktop wrote: it is named like one and holds the
/// document `result.json`.
pub open spec fn chat_export(dir: Seq<char>, has_result: bool) -> bool {
    has_result && match file_name(dir) {
        Some(name) => starts(name, "ChatExport_"@),
        None => false,
    }
}

/// Whether Telegram Desktop wrote a folder.
pub fn is_chat_export(dir: &str, has_result: bool) -> (r: bool)
    ensures
        r == chat_export(dir@, has_result),
{
    match file_name_of(dir) {
        Some(name) => has_result && is_chatexport_dir_name(&name),
        None => false,
    }
}

/// Whether the walk for backend files enters an entry.
pub open spec fn backends_enter(
    path: Seq<char>,
    has_result: bool,
    home: Seq<char>,
    config: Config,
    xdg: Option<Seq<char>>,
) -> bool {
    let name = name_or_empty(path);
    !sandbox_name(name) && name != "assets"@ && name != ASSET_SERVER_DIR_NAME@ && !chat_export(
        path,
        has_result,
    ) && !skips(config, path, home, xdg)
}

/// Whether the walk for backend files enters an entry. It decides by name
/// before the kind is known. `has_result` tells that there is a `result.json`
/// in it.
pub fn walk_backends_enters(
    path: &str,
    has_result: bool,
    home: &str,
    config: &Config,
    xdg: Option<&str>,
) -> (r: bool)
    ensures
        r == backends_enter(path@, has_result, home@, *config, opt_str(xdg)),
{
    let name = name_or_empty_of(path);
    !is_sandbox_blocked_name(&name) && !same_str(&name, "assets") && !same_str(
        &name,
        ASSET_SERVER_DIR_NAME,
    ) && !is_chat_export(path, has_result) && !config.skips_directory(path, home, xdg)
}

/// What a Markdown walk does with an entry.
pub open spec fn markdown_step(
    path: Seq<char>,
    kind: NodeKind,
    home: Seq<char>,
    config: Config,
    xdg: Option<Seq<char>>,
) -> WalkStep {
    if kind == NodeKind::Symlink || walk_skips(name_or_empty(path)) || skips(
        config,
        path,
        home,
        xdg,
    ) {
        WalkStep::Skip
    } else if kind == NodeKind::Directory {
        WalkStep::Descend
    } else if kind == NodeKind::File && has_extension(path, "md"@) {
        WalkStep::Keep
    } else {
        WalkStep::Skip
    }
}

/// What a Markdown walk does with an entry.
pub fn walk_markdown_step(
    path: &str,
    kind: NodeKind,
    home: &str,
    config: &Config,
    xdg: Option<&str>,
) -> (r: WalkStep)
    ensures
        r == markdown_step(path@, kind, home@, *config, opt_str(xdg)),
{
    if kind == NodeKind::Symlink || skip_walk_name(&name_or_empty_of(path))
        || config.skips_directory(path, home, xdg) {
        WalkStep::Skip
    } else if kind == NodeKind::Directory {
        WalkStep::Descend
    } else if kind == NodeKind::File && is_markdown_file(path) {
        WalkStep::Keep
    } else {
        WalkStep::Skip
    }
}

/// The kinds of sources.
#[derive(Clone, Copy, Debug, PartialEq, Eq, Structural)]
pub enum SourceKind {
    Backend,
    SessionDir,
    SessionJsonl,
    Markdown,
    Sqlite,
    Telegram,
    ChatGpt,
    Facebook,
    Twitter,
    Zip,
    StoryCards,
    Characters,
}

/// A source that an ingest reads.
#[derive(Clone, Debug, PartialEq, Eq)]
pub struct IngestSource {
    pub kind: SourceKind,
    pub path: String,
}

/// What a source holds.
pub open spec fn source_view(s: IngestSource) -> (SourceKind, Seq<char>) {
    (s.kind, s.path@)
}

/// What the caller found out about a file.
#[derive(Clone, Copy, Debug, PartialEq, Eq, Structural)]
pub struct FileMarks {
    /// A sqlite file with a table of sessions.
    pub session_docs: bool,
    /// A Telegram document.
    pub telegram: bool,
    /// It stands in a ChatGPT export.
    pub in_chatgpt_dir: bool,
    /// A list of story cards.
    pub story_cards: bool,
}

/// The kind of source that a file is. `None`: it is named like a Telegram
/// document and is none.
pub open spec fn file_kind(path: Seq<char>, m: FileMarks) -> Option<SourceKind> {
    let name = name_or_empty(path);
    if zip_path(path) {
        Some(SourceKind::Zip)
    } else if !named(path, GROK_OSS_DB_NAME@) && (named(path, SESSION_SEARCH_SQLITE_NAME@)
        || m.session_docs) {
        Some(SourceKind::Sqlite)
    } else if has_extension(path, "jsonl"@) {
        Some(SourceKind::SessionJsonl)
    } else if has_extension(path, "md"@) {
        Some(SourceKind::Markdown)
    } else if file_name(path) == Some(RESULT_FILE_NAME@) {
        if m.telegram || crate::names::chatexport_result(path) {
            Some(SourceKind::Telegram)
        } else {
            None
        }
    } else if conversations_json(name) || (crate::names::user_json(name) && m.in_chatgpt_dir) {
        Some(SourceKind::ChatGpt)
    } else if crate::characters::character_file(path) {
        Some(SourceKind::Characters)
    } else if m.story_cards {
        Some(SourceKind::StoryCards)
    } else {
        Some(SourceKind::Backend)
    }
}

/// The source that a file is. A conversations file of a ChatGPT export
/// stands for its folder `parent`.
pub fn discover_file(path: &str, parent: &str, m: FileMarks) -> (r: Result<IngestSource, Error>)
    ensures
        match r {
            Ok(s) => file_kind(path@, m) == Some(s.kind) && s.path@ == (if s.kind
                == SourceKind::ChatGpt && m.in_chatgpt_dir {
                parent@
            } else {
                path@
            }),
            Err(Error::Ingest(t)) => file_kind(path@, m) is None && t@ == path@
                + " is named result.json but is not a Telegram Desktop export"@,
            Err(_) => false,
        },
{
    let name = name_or_empty_of(path);
    let kind = if is_zip_path(path) {
        SourceKind::Zip
    } else if is_session_sqlite_path(path, m.session_docs) {
        SourceKind::Sqlite
    } else if path_has_extension(path, "jsonl") {
        SourceKind::SessionJsonl
    } else if is_markdown_file(path) {
        SourceKind::Markdown
    } else if is_result_json_name(path) {
        if m.telegram || is_chatexport_result_json(path) {
            SourceKind::Telegram
        } else {
            return Err(
                Error::Ingest(
                    cat(path, " is named result.json but is not a Telegram Desktop export"),
                ),
            );
        }
    } else if is_conversations_json_name(&name) || (is_user_json_name(&name)
        && m.in_chatgpt_dir) {
        SourceKind::ChatGpt
    } else if crate::characters::is_toml_file(path) {
        SourceKind::Characters
    } else if m.story_cards {
        SourceKind::StoryCards
    } else {
        SourceKind::Backend
    };
    let path = if kind == SourceKind::ChatGpt && m.in_chatgpt_dir {
        parent
    } else {
        path
    };
    Ok(IngestSource { kind, path: path.to_owned() })
}

/// What is asked of a folder, in this order. The first that holds decides.
#[derive(Clone, Copy, Debug, PartialEq, Eq, Structural)]
pub enum Probe {
    /// Backend files in it.
    Backends,
    ChatGpt,
    Facebook,
    Twitter,
    Obsidian,
    /// The Telegram document in it.
    Telegram,
    Reports,
    Markdown,
    /// It holds a chat history.
    ChatHistory,
    /// Character files in it.
    Characters,
}

/// The questions asked of an input folder, in order. A folder of Telegram
/// Desktop is only asked for its document.
pub open spec fn dir_probes(dir: Seq<char>, has_result: bool) -> Seq<Probe> {
    if chat_export(dir, has_result) {
        seq![Probe::Telegram]
    } else {
        seq![
            Probe::Backends,
            Probe::ChatGpt,
            Probe::Facebook,
            Probe::Twitter,
            Probe::Obsidian,
            Probe::Telegram,
            Probe::Reports,
            Probe::Markdown,
            Probe::ChatHistory,
            Probe::Characters,
        ]
    }
}

/// The questions asked of a folder inside a dump, in order. A folder of
/// Telegram Desktop is only asked for its document.
pub open spec fn nested_probes(dir: Seq<char>, has_result: bool) -> Seq<Probe> {
    if chat_export(dir, has_result) {
        seq![Probe::Telegram]
    } else {
        seq![
            Probe::Backends,
            Probe::ChatHistory,
            Probe::ChatGpt,
            Probe::Facebook,
            Probe::Twitter,
            Probe::Telegram,
        ]
    }
}

/// The questions asked of an input folder, in order. `has_result` tells that
/// there is a `result.json` in it.
pub fn discover_dir_probes(dir: &str, has_result: bool) -> (r: Vec<Probe>)
    ensures
        r@ == dir_probes(dir@, has_result),
{
    let mut v: Vec<Probe> = Vec::new();
    if is_chat_export(dir, has_result) {
        v.push(Probe::Telegram);
    } else {
        v.push(Probe::Backends);
        v.push(Probe::ChatGpt);
        v.push(Probe::Facebook);
        v.push(Probe::Twitter);
        v.push(Probe::Obsidian);
        v.push(Probe::Telegram);
        v.push(Probe::Reports);
        v.push(Probe::Markdown);
        v.push(Probe::ChatHistory);
        v.push(Probe::Characters);
    }
    proof {
        assert(v@ =~= dir_probes(dir@, has_result));
    }
    v
}

/// The questions asked of a folder inside a dump, in order. `has_result`
/// tells that there is a `result.json` in it.
pub fn walk_sources_probes(dir: &str, has_result: bool) -> (r: Vec<Probe>)
    ensures
        r@ == nested_probes(dir@, has_result),
{
    let mut v: Vec<Probe> = Vec::new();
    if is_chat_export(dir, has_result) {
        v.push(Probe::Telegram);
    } else {
        v.push(Probe::Backends);
        v.push(Probe::ChatHistory);
        v.push(Probe::ChatGpt);
        v.push(Probe::Facebook);
        v.push(Probe::Twitter);
        v.push(Probe::Telegram);
    }
    proof {
        assert(v@ =~= nested_probes(dir@, has_result));
    }
    v
}

/// A folder `ChatExport_*` with `result.json` is Telegram. It is never
/// treated as a Grok export, whatever files stand in it.
pub proof fn law_chat_export_is_telegram(
    dir: Seq<char>,
    home: Seq<char>,
    config: Config,
    xdg: Option<Seq<char>>,
)
    requires
        chat_export(dir, true),
    ensures
        forall|i: int|
            0 <= i < dir_probes(dir, true).len() ==> probe_kind(
                #[trigger] dir_probes(dir, true)[i],
            ) == SourceKind::Telegram,
        forall|i: int|
            0 <= i < nested_probes(dir, true).len() ==> probe_kind(
                #[trigger] nested_probes(dir, true)[i],
            ) == SourceKind::Telegram,
        !backends_enter(dir, true, home, config, xdg),
{
}

/// The kind of source that a positive answer makes.
pub open spec fn probe_kind(p: Probe) -> SourceKind {
    match p {
        Probe::Backends => SourceKind::Backend,
        Probe::ChatGpt => SourceKind::ChatGpt,
        Probe::Facebook => SourceKind::Facebook,
        Probe::Twitter => SourceKind::Twitter,
        Probe::Obsidian => SourceKind::Markdown,
        Probe::Telegram => SourceKind::Telegram,
        Probe::Reports => SourceKind::Markdown,
        Probe::Markdown => SourceKind::Markdown,
        Probe::ChatHistory => SourceKind::SessionDir,
        Probe::Characters => SourceKind::Characters,
    }
}

fn kind_of_probe(p: Probe) -> (r: SourceKind)
    ensures
        r == probe_kind(p),
{
    match p {
        Probe::Backends => SourceKind::Backend,
        Probe::ChatGpt => SourceKind::ChatGpt,
        Probe::Facebook => SourceKind::Facebook,
        Probe::Twitter => SourceKind::Twitter,
        Probe::Obsidian => SourceKind::Markdown,
        Probe::Telegram => SourceKind::Telegram,
        Probe::Reports => SourceKind::Markdown,
        Probe::Markdown => SourceKind::Markdown,
        Probe::ChatHistory => SourceKind::SessionDir,
        Probe::Characters => SourceKind::Characters,
    }
}

/// The sources that the answer to a question makes: one for each path that
/// was found, in order. No path: the answer is no.
pub fn sources_of(p: Probe, found: &Vec<String>) -> (r: Vec<IngestSource>)
    ensures
        r@.len() == found@.len(),
        forall|i: int|
            0 <= i < r@.len() ==> source_view(#[trigger] r@[i]) == (probe_kind(p), found@[i]@),
{
    let mut out: Vec<IngestSource> = Vec::new();
    let mut i: usize = 0;
    while i < found.len()
        invariant
            i <= found@.len(),
            out@.len() == i,
            forall|k: int|
                0 <= k < i ==> source_view(#[trigger] out@[k]) == (probe_kind(p), found@[k]@),
        decreases found.len() - i,
    {
        out.push(IngestSource { kind: kind_of_probe(p), path: found[i].clone() });
        i = i + 1;
    }
    out
}

/// The refusal of an input without a source.
pub fn no_source_error(input: &str) -> (r: Error)
    ensures
        match r {
            Error::Ingest(m) => m@
                == "no Grok dump, ChatGPT conversations export, Telegram result.json, Facebook your_facebook_activity, X account archive, markdown, or session_docs sqlite under "@
                + input@,
            _ => false,
        },
{
    Error::Ingest(
        cat(
            "no Grok dump, ChatGPT conversations export, Telegram result.json, Facebook your_facebook_activity, X account archive, markdown, or session_docs sqlite under ",
            input,
        ),
    )
}

/// Neighbours that are the same path, once.
pub open spec fn deduped(v: Seq<Seq<char>>) -> Seq<Seq<char>>
    decreases v.len(),
{
    if v.len() <= 1 {
        v
    } else {
        let head = deduped(v.drop_last());
        if components(head.last()) == components(v.last()) {
            head
        } else {
            head.push(v.last())
        }
    }
}

/// Paths in path order, each once.
pub fn sorted_once(found: &Vec<String>) -> (r: Vec<String>)
    ensures
        exists|p: Seq<String>| #[trigger] sorted_paths(found@, p) && views(r@) == deduped(views(p)),
{
    let all = sort_paths(found);
    let ghost p = all@;
    let ghost want = views(p);
    let mut out: Vec<String> = Vec::new();
    let mut i: usize = 0;
    proof {
        assert(want.take(0) =~= Seq::<Seq<char>>::empty());
        assert(views(out@) =~= deduped(want.take(0)));
    }
    while i < all.len()
        invariant
            i <= all@.len(),
            want == views(all@),
            views(out@) == deduped(want.take(i as int)),
            i > 0 ==> out@.len() > 0,
        decreases all.len() - i,
    {
        let n: usize = out.len();
        proof {
            assert(want.take(i + 1).drop_last() =~= want.take(i as int));
            assert(want.take(i + 1).last() == all@[i as int]@);
            assert(views(out@).len() == n);
            if n > 0 {
                assert(views(out@).last() == out@[n - 1]@);
            }
        }
        let again = n > 0 && same_path(&out[n - 1], &all[i]);
        if !again {
            let ghost held = views(out@);
            out.push(all[i].clone());
            proof {
                assert(views(out@) =~= held.push(all@[i as int]@));
                if i == 0 {
                    assert(want.take(1) =~= seq![want[0]]);
                    assert(views(out@) =~= want.take(1));
                }
            }
        } else {
            proof {
                if i == 0 {
                    assert(want.take(0).len() == 0);
                    assert(views(out@).len() == 0);
                }
            }
        }
        i = i + 1;
    }
    proof {
        assert(want.take(want.len() as int) =~= want);
        assert(sorted_paths(found@, p));
    }
    out
}

/// `path` is, or lies in, the directory that `names` lead to from `home`.
pub open spec fn lies_in(path: Seq<char>, home: Seq<char>, names: Seq<Seq<char>>) -> bool {
    (components(home) + names).is_prefix_of(components(path))
}

/// The names that a home scan never enters.
pub open spec fn unscanned_names() -> Seq<Seq<char>> {
    seq![
        ".git"@,
        "node_modules"@,
        "target"@,
        ".cache"@,
        ".cargo"@,
        ".rustup"@,
        ".npm"@,
        ".nvm"@,
        "Steam"@,
        "lutris"@,
        "nix"@,
        "proc"@,
        ".config"@,
    ]
}

/// The name opens with that of the blocked sandbox folders.
pub open spec fn opens_sandbox(name: Seq<char>) -> bool {
    "sandbox-blocked-dir"@.is_prefix_of(name)
}

/// A home scan skips what lies in the memex directory, in the settings, in the
/// data of Lutris, Steam and Telegram Desktop and in the fixtures, what the
/// configuration skips, and the listed names and sandbox folders. It skips
/// nothing else.
pub proof fn law_scan_skips_nothing_else(
    home: Seq<char>,
    path: Seq<char>,
    config: Config,
    xdg: Option<Seq<char>>,
)
    ensures
        scan_skip(home, path, config, xdg) is Some <==> {
            ||| under(path, expanded(config.memex_dir@, home))
            ||| lies_in(path, home, seq![".config"@])
            ||| lies_in(path, home, seq![".local"@, "share"@, "lutris"@])
            ||| lies_in(path, home, seq![".local"@, "share"@, "Steam"@])
            ||| lies_in(path, home, seq![".local"@, "share"@, "TelegramDesktop"@])
            ||| lies_in(path, home, seq!["majestic"@, "tests"@])
            ||| skips(config, path, home, xdg)
            ||| file_name(path) is Some && unscanned_names().contains(file_name(path)->0)
            ||| file_name(path) is Some && opens_sandbox(file_name(path)->0)
        },
{
    lemma_unscanned_trees(home);
    if file_name(path) is Some {
        lemma_unscanned(file_name(path)->0);
    }
}

proof fn lemma_unscanned_trees(home: Seq<char>)
    ensures
        ({
            let c = components(home);
            let share = joined(joined(home, ".local"@), "share"@);
            &&& components(joined(home, ".config"@)) == c + seq![".config"@]
            &&& components(joined(share, "lutris"@)) == c + seq![".local"@, "share"@, "lutris"@]
            &&& components(joined(share, "Steam"@)) == c + seq![".local"@, "share"@, "Steam"@]
            &&& components(joined(share, "TelegramDesktop"@)) == c + seq![
                ".local"@,
                "share"@,
                "TelegramDesktop"@,
            ]
            &&& components(joined(joined(home, "majestic"@), "tests"@)) == c + seq![
                "majestic"@,
                "tests"@,
            ]
        }),
{
    let c = components(home);
    let share = joined(joined(home, ".local"@), "share"@);
    lemma_tree_names();
    law_joined_two(home, ".local"@, "share"@);
    lemma_below(home, Seq::empty(), home, ".config"@);
    lemma_below(home, seq![".local"@, "share"@], share, "lutris"@);
    lemma_below(home, seq![".local"@, "share"@], share, "Steam"@);
    lemma_below(home, seq![".local"@, "share"@], share, "TelegramDesktop"@);
    law_joined_two(home, "majestic"@, "tests"@);
    assert(Seq::<Seq<char>>::empty().push(".config"@) =~= seq![".config"@]);
    assert(seq![".local"@, "share"@].push("lutris"@) =~= seq![".local"@, "share"@, "lutris"@]);
    assert(seq![".local"@, "share"@].push("Steam"@) =~= seq![".local"@, "share"@, "Steam"@]);
    assert(seq![".local"@, "share"@].push("TelegramDesktop"@) =~= seq![
        ".local"@,
        "share"@,
        "TelegramDesktop"@,
    ]);
}

proof fn lemma_below(home: Seq<char>, names: Seq<Seq<char>>, dir: Seq<char>, name: Seq<char>)
    requires
        plain_name(name),
        components(dir) =~= components(home) + names,
    ensures
        components(joined(dir, name)) == components(home) + names.push(name),
{
    law_joined_name(dir, name);
    assert((components(home) + names).push(name) =~= components(home) + names.push(name));
}

proof fn lemma_tree_names()
    ensures
        plain_name(".config"@),
        plain_name(".local"@),
        plain_name("share"@),
        plain_name("lutris"@),
        plain_name("Steam"@),
        plain_name("TelegramDesktop"@),
        plain_name("majestic"@),
        plain_name("tests"@),
{
    reveal_strlit(".config");
    reveal_strlit(".local");
    reveal_strlit("share");
    reveal_strlit("lutris");
    reveal_strlit("Steam");
    reveal_strlit("TelegramDesktop");
    reveal_strlit("majestic");
    reveal_strlit("tests");
    assert(".config"@.len() == 7 && ".local"@.len() == 6);
}

proof fn lemma_unscanned(name: Seq<char>)
    ensures
        name_skip(name) is Some <==> unscanned_names().contains(name) || opens_sandbox(name),
{
    let all = unscanned_names();
    if name_skip(name) is Some && !opens_sandbox(name) {
        let i = if name == ".git"@ {
            0int
        } else if name == "node_modules"@ {
            1
        } else if name == "target"@ {
            2
        } else if name == ".cache"@ {
            3
        } else if name == ".cargo"@ {
            4
        } else if name == ".rustup"@ {
            5
        } else if name == ".npm"@ {
            6
        } else if name == ".nvm"@ {
            7
        } else if name == "Steam"@ {
            8
        } else if name == "lutris"@ {
            9
        } else if name == "nix"@ {
            10
        } else if name == "proc"@ {
            11
        } else {
            12
        };
        assert(all[i] == name);
    }
}

/// A Markdown walk enters every folder but version control, package and vault
/// settings, trash and blocked sandboxes.
pub proof fn law_walk_enters_the_rest(name: Seq<char>)
    ensures
        walk_skips(name) <==> {
            ||| seq![".git"@, "node_modules"@, ".obsidian"@, ".Trash"@].contains(name)
            ||| ".Trash-"@.is_prefix_of(name)
            ||| opens_sandbox(name)
        },
{
    let all = seq![".git"@, "node_modules"@, ".obsidian"@, ".Trash"@];
    assert(all[0] == ".git"@ && all[1] == "node_modules"@ && all[2] == ".obsidian"@ && all[3]
        == ".Trash"@);
}

/// The folder of agent reports is `reports` in `.agents`.
pub proof fn law_reports_folder(dir: Seq<char>, a: Seq<char>, b: Seq<char>)
    requires
        plain_name(a),
        plain_name(b),
    ensures
        reports_dir(joined(joined(dir, a), b)) <==> a == ".agents"@ && b == "reports"@,
{
    law_joined_two(dir, a, b);
    let all = components(joined(joined(dir, a), b));
    assert(all == components(dir) + seq![a, b]);
    assert(all.last() == b && all[all.len() - 2] == a);
}

/// What a home scan does with a file, by its name: exports, the session index
/// and zips are sources, any other file is passed over.
pub proof fn law_scan_of_files(dir: Seq<char>, name: Seq<char>, depth: u32)
    requires
        plain_name(name),
    ensures
        ({
            let step = scan_step(joined(dir, name), NodeKind::File, depth);
            &&& name == "prod-grok-backend.json"@ || name == "result.json"@ ==> step
                == HomeStep::Source
            &&& name == "session_search.sqlite"@ ==> step == HomeStep::SessionIndex
            &&& step == HomeStep::Source ==> name == "prod-grok-backend.json"@ || name
                == "result.json"@
            &&& step == HomeStep::SessionIndex ==> name == "session_search.sqlite"@
            &&& step == HomeStep::Zip ==> name_extension(name) is Some && same_ascii(
                name_extension(name)->0,
                "zip"@,
            )
            &&& name_extension(name) is Some && same_ascii(name_extension(name)->0, "zip"@)
                ==> step == HomeStep::Zip || step == HomeStep::Source || step
                == HomeStep::SessionIndex
            &&& step != HomeStep::Descend
        }),
{
    law_joined_name(dir, name);
    reveal_strlit("session_search.sqlite");
    reveal_strlit("prod-grok-backend.json");
    reveal_strlit("result.json");
    assert("session_search.sqlite"@.len() == 21 && "prod-grok-backend.json"@.len() == 22
        && "result.json"@.len() == 11);
}

/// What a home scan does with a folder: it goes down while there is depth
/// left, and reads the sessions of `.grok`.
pub proof fn law_scan_of_folders(dir: Seq<char>, name: Seq<char>, depth: u32)
    requires
        plain_name(name),
    ensures
        name == ".grok"@ ==> scan_step(joined(dir, name), NodeKind::Directory, depth)
            == HomeStep::Sessions(depth > 1),
        name != ".grok"@ && depth > 0 ==> scan_step(joined(dir, name), NodeKind::Directory, depth)
            == HomeStep::Descend,
        name != ".grok"@ && depth == 0 ==> scan_step(joined(dir, name), NodeKind::Directory, depth)
            == HomeStep::Ignore,
        scan_step(joined(dir, name), NodeKind::Other, depth) == HomeStep::Ignore,
{
    law_joined_name(dir, name);
}

/// A walk for sources takes zips and enters every folder but the uploaded
/// files, trash and what the configuration skips.
pub proof fn law_source_walk(
    dir: Seq<char>,
    name: Seq<char>,
    home: Seq<char>,
    config: Config,
    xdg: Option<Seq<char>>,
)
    requires
        plain_name(name),
    ensures
        ({
            let path = joined(dir, name);
            &&& source_step(path, NodeKind::Directory, home, config, xdg) == WalkStep::Skip <==> {
                ||| name == "assets"@
                ||| name == "prod-mc-asset-server"@
                ||| name == ".Trash"@
                ||| ".Trash-"@.is_prefix_of(name)
                ||| skips(config, path, home, xdg)
            }
            &&& source_step(path, NodeKind::Directory, home, config, xdg) != WalkStep::Skip
                ==> source_step(path, NodeKind::Directory, home, config, xdg) == WalkStep::Descend
            &&& source_step(path, NodeKind::File, home, config, xdg) == WalkStep::Zip <==> !skips(
                config,
                path,
                home,
                xdg,
            ) && name_extension(name) is Some && same_ascii(name_extension(name)->0, "zip"@)
            &&& source_step(path, NodeKind::File, home, config, xdg) != WalkStep::Descend
            &&& source_step(path, NodeKind::Symlink, home, config, xdg) == WalkStep::Skip
            &&& source_step(path, NodeKind::Other, home, config, xdg) == WalkStep::Skip
        }),
{
    law_joined_name(dir, name);
}

/// A walk for backend files enters every folder but blocked sandboxes, the
/// uploaded files, chat exports and what the configuration skips.
pub proof fn law_backend_walk(
    dir: Seq<char>,
    name: Seq<char>,
    has_result: bool,
    home: Seq<char>,
    config: Config,
    xdg: Option<Seq<char>>,
)
    requires
        plain_name(name),
    ensures
        !backends_enter(joined(dir, name), has_result, home, config, xdg) <==> {
            ||| opens_sandbox(name)
            ||| name == "assets"@
            ||| name == "prod-mc-asset-server"@
            ||| has_result && "ChatExport_"@.is_prefix_of(name)
            ||| skips(config, joined(dir, name), home, xdg)
        },
{
    law_joined_name(dir, name);
}

/// A walk for notes keeps the Markdown files and enters every folder, but for
/// links, the names that it never enters and what the configuration skips.
pub proof fn law_markdown_walk(
    dir: Seq<char>,
    name: Seq<char>,
    kind: NodeKind,
    home: Seq<char>,
    config: Config,
    xdg: Option<Seq<char>>,
)
    requires
        plain_name(name),
        !skips(config, joined(dir, name), home, xdg),
        !seq![".git"@, "node_modules"@, ".obsidian"@, ".Trash"@].contains(name),
        !".Trash-"@.is_prefix_of(name),
        !opens_sandbox(name),
    ensures
        markdown_step(joined(dir, name), NodeKind::Directory, home, config, xdg)
            == WalkStep::Descend,
        name_extension(name) is Some && same_ascii(name_extension(name)->0, "md"@) ==> markdown_step(
            joined(dir, name),
            NodeKind::File,
            home,
            config,
            xdg,
        ) == WalkStep::Keep,
        !(name_extension(name) is Some && same_ascii(name_extension(name)->0, "md"@))
            ==> markdown_step(joined(dir, name), NodeKind::File, home, config, xdg)
            == WalkStep::Skip,
        markdown_step(joined(dir, name), NodeKind::Symlink, home, config, xdg) == WalkStep::Skip,
        markdown_step(joined(dir, name), NodeKind::Other, home, config, xdg) == WalkStep::Skip,
{
    law_joined_name(dir, name);
    law_walk_enters_the_rest(name);
}

/// What kind of source a file is, by its extension. A JSON array of cards and
/// a backend file are told by what is in them.
pub proof fn law_kinds_of_files(dir: Seq<char>, name: Seq<char>, ext: Seq<char>, m: FileMarks)
    requires
        plain_name(name),
        name_extension(name) == Some(ext),
        !m.session_docs,
        !same_ascii(name, "session_search.sqlite"@),
    ensures
        same_ascii(ext, "zip"@) ==> file_kind(joined(dir, name), m) == Some(SourceKind::Zip),
        same_ascii(ext, "jsonl"@) ==> file_kind(joined(dir, name), m) == Some(
            SourceKind::SessionJsonl,
        ),
        same_ascii(ext, "md"@) ==> file_kind(joined(dir, name), m) == Some(SourceKind::Markdown),
        file_kind(joined(dir, name), m) == Some(SourceKind::Zip) ==> same_ascii(ext, "zip"@),
        file_kind(joined(dir, name), m) == Some(SourceKind::SessionJsonl) ==> same_ascii(
            ext,
            "jsonl"@,
        ),
        file_kind(joined(dir, name), m) == Some(SourceKind::Markdown) ==> same_ascii(ext, "md"@),
        file_kind(joined(dir, name), m) != Some(SourceKind::Sqlite),
        file_kind(joined(dir, name), m) is None ==> name == "result.json"@ && !m.telegram,
        name == "result.json"@ && m.telegram ==> file_kind(joined(dir, name), m) == Some(
            SourceKind::Telegram,
        ),
        name == "prod-grok-backend.json"@ && !m.story_cards ==> file_kind(joined(dir, name), m)
            == Some(SourceKind::Backend),
{
    law_joined_name(dir, name);
    lemma_lower_names(ext);
    if name == "result.json"@ {
        reveal_strlit("result.json");
        reveal_strlit("json");
        assert("result"@ + seq!['.'] + "json"@ =~= "result.json"@) by {
            reveal_strlit("result");
        }
        assert(!"json"@.contains('.'));
        reveal_strlit("result");
        law_name_and_extension("result"@, "json"@);
        assert(ext == "json"@);
        lemma_json_apart();
    }
    if name == "prod-grok-backend.json"@ {
        reveal_strlit("prod-grok-backend");
        reveal_strlit("prod-grok-backend.json");
        reveal_strlit("json");
        assert("prod-grok-backend"@ + seq!['.'] + "json"@ =~= "prod-grok-backend.json"@);
        assert(!"json"@.contains('.'));
        law_name_and_extension("prod-grok-backend"@, "json"@);
        lemma_json_apart();
        lemma_backend_is_alone(dir);
    }
}

proof fn lemma_backend_is_alone(dir: Seq<char>)
    ensures
        !conversations_json("prod-grok-backend.json"@),
        !crate::names::user_json("prod-grok-backend.json"@),
        !same_ascii("json"@, "toml"@),
        "prod-grok-backend.json"@ != "result.json"@,
{
    let name = "prod-grok-backend.json"@;
    reveal_strlit("prod-grok-backend.json");
    reveal_strlit("user.json");
    reveal_strlit("result.json");
    reveal_strlit(".json");
    reveal_strlit("conversations");
    reveal_strlit("conversations-");
    reveal_strlit("json");
    reveal_strlit("toml");
    law_inner_name(dir, name);
    let stem = name.take(name.len() - 5);
    assert(stem[0] == 'p');
    assert("conversations"@[0] == 'c');
    if starts(stem, "conversations-"@) {
        assert(stem.take(14)[0] == stem[0]);
    }
    assert(lower(name).len() == 22 && lower("user.json"@).len() == 9);
    assert(lower("json"@)[0] == 'j' && lower("toml"@)[0] == 't');
}

proof fn lemma_lower_names(ext: Seq<char>)
    ensures
        same_ascii(ext, "jsonl"@) ==> !same_ascii(ext, "zip"@) && !same_ascii(ext, "md"@),
        same_ascii(ext, "md"@) ==> !same_ascii(ext, "zip"@) && !same_ascii(ext, "jsonl"@),
{
    reveal_strlit("zip");
    reveal_strlit("md");
    reveal_strlit("jsonl");
    assert(lower("zip"@).len() == 3 && lower("md"@).len() == 2 && lower("jsonl"@).len() == 5);
}

proof fn lemma_json_apart()
    ensures
        !same_ascii("json"@, "zip"@),
        !same_ascii("json"@, "md"@),
        !same_ascii("json"@, "jsonl"@),
{
    reveal_strlit("zip");
    reveal_strlit("md");
    reveal_strlit("jsonl");
    reveal_strlit("json");
    assert(lower("zip"@).len() == 3 && lower("md"@).len() == 2 && lower("jsonl"@).len() == 5
        && lower("json"@).len() == 4);
}

/// Every folder is asked for every kind of source, and each answer is a source
/// of its own kind.
pub proof fn law_probes(dir: Seq<char>, p: Probe)
    ensures
        !chat_export(dir, false),
        dir_probes(dir, false).contains(p),
        dir_probes(dir, false).len() == 10,
        dir_probes(dir, false).no_duplicates(),
        nested_probes(dir, false).contains(p) <==> p != Probe::Obsidian && p != Probe::Reports && p
            != Probe::Markdown && p != Probe::Characters,
        probe_kind(Probe::Backends) == SourceKind::Backend,
        probe_kind(Probe::ChatGpt) == SourceKind::ChatGpt,
        probe_kind(Probe::Facebook) == SourceKind::Facebook,
        probe_kind(Probe::Twitter) == SourceKind::Twitter,
        probe_kind(Probe::Telegram) == SourceKind::Telegram,
        probe_kind(Probe::Obsidian) == SourceKind::Markdown,
        probe_kind(Probe::Reports) == SourceKind::Markdown,
        probe_kind(Probe::Markdown) == SourceKind::Markdown,
        probe_kind(Probe::ChatHistory) == SourceKind::SessionDir,
        probe_kind(Probe::Characters) == SourceKind::Characters,
{
    let a = dir_probes(dir, false);
    assert(a[0] == Probe::Backends && a[1] == Probe::ChatGpt && a[2] == Probe::Facebook && a[3]
        == Probe::Twitter && a[4] == Probe::Obsidian && a[5] == Probe::Telegram && a[6]
        == Probe::Reports && a[7] == Probe::Markdown && a[8] == Probe::ChatHistory && a[9]
        == Probe::Characters);
    let b = nested_probes(dir, false);
    assert(b[0] == Probe::Backends && b[1] == Probe::ChatHistory && b[2] == Probe::ChatGpt && b[3]
        == Probe::Facebook && b[4] == Probe::Twitter && b[5] == Probe::Telegram);
}

/// Sorted paths are listed once: every path is there, and no two neighbours
/// are the same.
pub proof fn law_paths_once(v: Seq<Seq<char>>, i: int, j: int)
    ensures
        0 <= i < v.len() ==> exists|k: int|
            0 <= k < deduped(v).len() && components(#[trigger] deduped(v)[k]) == components(v[i]),
        0 <= j < deduped(v).len() ==> v.contains(deduped(v)[j]),
        0 < j < deduped(v).len() ==> components(deduped(v)[j - 1]) != components(deduped(v)[j]),
        v.len() > 0 ==> deduped(v).len() > 0 && components(deduped(v).last()) == components(v.last()),
    decreases v.len(),
{
    if v.len() > 1 {
        let n = v.len() - 1;
        let init = v.drop_last();
        let head = deduped(init);
        let all = deduped(v);
        law_paths_once(init, i, j);
        if 0 <= i < v.len() {
            if i < n {
                assert(init[i] == v[i]);
                let k = choose|k: int|
                    0 <= k < head.len() && components(#[trigger] head[k]) == components(v[i]);
                assert(all[k] == head[k]);
            } else {
                assert(all[all.len() - 1] == all.last());
                assert(components(all[all.len() - 1]) == components(v[i]));
            }
        }
        if 0 <= j < all.len() {
            if j < head.len() {
                assert(all[j] == head[j]);
                let k = choose|k: int| 0 <= k < init.len() && init[k] == head[j];
                assert(v[k] == head[j]);
            } else {
                assert(v[n] == all[j]);
            }
        }
        if 0 < j < all.len() {
            if j == head.len() {
                assert(all[j - 1] == head.last());
            }
        }
    } else if v.len() == 1 {
        assert(deduped(v)[0] == v[0]);
    }
}

/// The data directory of the environment counts only for the home of the
/// process itself.
pub proof fn law_data_directory(home: Seq<char>, own: Seq<char>, xdg: Seq<char>)
    requires
        own.len() > 0,
        xdg.len() > 0,
    ensures
        components(own) == components(home) ==> xdg_home(home, Some(own), Some(xdg)) == Some(xdg),
        components(own) != components(home) ==> xdg_home(home, Some(own), Some(xdg)) is None,
        xdg_home(home, None, Some(xdg)) is None,
        xdg_home(home, Some(own), None) is None,
        xdg_home(home, Some(own), Some(Seq::empty())) is None,
{
}

} // verus!
