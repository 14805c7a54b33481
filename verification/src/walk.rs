//! The scan of a home folder for known exports. What is on disk is asked of
//! the caller, one question at a time.
use vstd::prelude::*;

use crate::config::Config;
use crate::paths::{join_path, joined, opt_str, sorted_paths};
use crate::scan::{
    deduped, home_dir_is_source, home_scan_skip_reason, home_step,
    reports_dir, scan_skip, scan_step, sorted_once, DirMarks, HomeStep, NodeKind,
};
use crate::text::views;

verus! {

/// A question about a path.
#[derive(Clone, Copy, Debug, PartialEq, Eq, Structural)]
pub enum Fact {
    /// It is a file.
    File,
    /// It is a folder.
    Folder,
    /// It is a folder, and no link to one.
    OwnFolder,
    /// It is a zip with a known export in it.
    KnownZip,
    /// It is a database with a table of sessions.
    SessionIndex,
    /// It is a folder with a ChatGPT export.
    ChatGpt,
    /// It stands in a folder with a ChatGPT export.
    InChatGpt,
    /// It is a folder with a Facebook or Instagram export.
    Facebook,
    /// It is a folder with an X archive.
    Twitter,
    /// It is an Obsidian vault.
    Obsidian,
    /// It is a Telegram document.
    Telegram,
    /// There are Markdown files in the folder.
    Markdown,
    /// There are character files in the folder.
    Characters,
    /// It is a list of story cards.
    StoryCards,
}

/// What decides which paths a walk leaves out.
#[derive(Clone, Copy)]
pub struct Scan<'a> {
    pub home: &'a str,
    pub config: &'a Config,
    /// The data directory of the user whose home is walked.
    pub xdg: Option<&'a str>,
}

/// Why a home scan skips a path.
pub open spec fn skipped(s: Scan<'_>, path: Seq<char>) -> Option<Seq<char>> {
    scan_skip(s.home@, path, *s.config, opt_str(s.xdg))
}

/// What a home scan asks about the disk.
pub struct HomeDisk<L, K, I, S> {
    /// The paths in a folder. Of one that cannot be read there are none.
    pub list: L,
    /// What a path is. `None`: it cannot be told.
    pub kind: K,
    /// Whether something holds of a path.
    pub is: I,
    /// Hears of each path that is skipped, and why.
    pub skip: S,
}

/// `r` is what a folder was said to hold.
pub open spec fn listed<L: Fn(&str) -> Vec<String>>(
    list: L,
    dir: Seq<char>,
    r: Vec<String>,
) -> bool {
    exists|p: &str| p@ == dir && #[trigger] call_ensures(list, (p,), r)
}

/// `r` is what a path was said to be.
pub open spec fn sorted_as<K: Fn(&str) -> Option<NodeKind>>(
    kind: K,
    path: Seq<char>,
    r: Option<NodeKind>,
) -> bool {
    exists|p: &str| p@ == path && #[trigger] call_ensures(kind, (p,), r)
}

/// `r` is what was said to hold of a path.
pub open spec fn said<I: Fn(Fact, &str) -> bool>(
    is: I,
    fact: Fact,
    path: Seq<char>,
    r: bool,
) -> bool {
    exists|p: &str| p@ == path && #[trigger] call_ensures(is, (fact, p), r)
}

/// `m` is what was said of a folder.
pub open spec fn marked<I: Fn(Fact, &str) -> bool>(is: I, dir: Seq<char>, m: DirMarks) -> bool {
    &&& said(is, Fact::Obsidian, dir, m.obsidian)
    &&& said(is, Fact::ChatGpt, dir, m.chatgpt)
    &&& said(is, Fact::Facebook, dir, m.facebook)
    &&& said(is, Fact::Twitter, dir, m.twitter)
}

/// A path that a home scan of `root` may ask about: the folder it starts in,
/// a path that is not skipped, and the `sessions` of such a path.
pub open spec fn may_ask(s: Scan<'_>, root: Seq<char>, path: Seq<char>) -> bool {
    ||| path == root
    ||| skipped(s, path) is None
    ||| exists|q: Seq<char>| path == #[trigger] joined(q, "sessions"@) && skipped(s, q) is None
}

/// The disk answers the questions that a home scan of `root` may ask. It
/// need not answer any other.
pub open spec fn answers_home<
    L: Fn(&str) -> Vec<String>,
    K: Fn(&str) -> Option<NodeKind>,
    I: Fn(Fact, &str) -> bool,
    S: Fn(&str, &str),
>(disk: HomeDisk<L, K, I, S>, s: Scan<'_>, root: Seq<char>) -> bool {
    &&& forall|p: &str| may_ask(s, root, p@) ==> #[trigger] call_requires(disk.list, (p,))
    &&& forall|p: &str| may_ask(s, root, p@) ==> #[trigger] call_requires(disk.kind, (p,))
    &&& forall|f: Fact, p: &str|
        may_ask(s, root, p@) ==> #[trigger] call_requires(disk.is, (f, p))
    &&& forall|p: &str, why: &str| #[trigger] call_requires(disk.skip, (p, why))
}

/// `found` is what a home scan finds in a folder. A folder that is itself a
/// source is not entered.
pub open spec fn dir_found<
    L: Fn(&str) -> Vec<String>,
    K: Fn(&str) -> Option<NodeKind>,
    I: Fn(Fact, &str) -> bool,
    S: Fn(&str, &str),
>(
    disk: HomeDisk<L, K, I, S>,
    s: Scan<'_>,
    dir: Seq<char>,
    depth: u32,
    found: Seq<Seq<char>>,
) -> bool
    decreases depth, 2nat, 0nat,
{
    exists|m: DirMarks| #[trigger]
        marked(disk.is, dir, m) && if m.obsidian || reports_dir(dir) || m.chatgpt || m.facebook
            || m.twitter {
            found == seq![dir]
        } else {
            exists|all: Vec<String>| #[trigger]
                listed(disk.list, dir, all) && entries_found(
                    disk,
                    s,
                    views(all@),
                    depth,
                    found,
                )
        }
}

/// `found` is what a home scan finds in the entries of a folder, in order.
pub open spec fn entries_found<
    L: Fn(&str) -> Vec<String>,
    K: Fn(&str) -> Option<NodeKind>,
    I: Fn(Fact, &str) -> bool,
    S: Fn(&str, &str),
>(
    disk: HomeDisk<L, K, I, S>,
    s: Scan<'_>,
    all: Seq<Seq<char>>,
    depth: u32,
    found: Seq<Seq<char>>,
) -> bool
    decreases depth, 1nat, all.len(),
{
    if all.len() == 0 {
        found.len() == 0
    } else {
        exists|k: int|
            0 <= k <= found.len() && entries_found(
                disk,
                s,
                all.drop_last(),
                depth,
                #[trigger] found.take(k),
            ) && entry_found(disk, s, all.last(), depth, found.skip(k))
    }
}

/// `found` is what a home scan finds in one entry. An entry that is skipped
/// by its name is not asked about. The folder `.grok/sessions` lies two levels
/// down.
pub open spec fn entry_found<
    L: Fn(&str) -> Vec<String>,
    K: Fn(&str) -> Option<NodeKind>,
    I: Fn(Fact, &str) -> bool,
    S: Fn(&str, &str),
>(
    disk: HomeDisk<L, K, I, S>,
    s: Scan<'_>,
    path: Seq<char>,
    depth: u32,
    found: Seq<Seq<char>>,
) -> bool
    decreases depth, 0nat, 0nat,
{
    if skipped(s, path) is Some {
        found.len() == 0
    } else {
        exists|kind: Option<NodeKind>| #[trigger]
            sorted_as(disk.kind, path, kind) && match kind {
                None => found.len() == 0,
                Some(k) => match scan_step(path, k, depth) {
                    HomeStep::Source => found == seq![path],
                    HomeStep::SessionIndex => only_if(
                        disk.is,
                        Fact::SessionIndex,
                        path,
                        found,
                    ),
                    HomeStep::Zip => only_if(disk.is, Fact::KnownZip, path, found),
                    HomeStep::Sessions(true) => {
                        let sessions = joined(path, "sessions"@);
                        ||| said(disk.is, Fact::OwnFolder, sessions, false) && found.len() == 0
                        ||| depth > 1 && said(disk.is, Fact::OwnFolder, sessions, true) && dir_found(
                            disk,
                            s,
                            sessions,
                            (depth - 2) as u32,
                            found,
                        )
                    },
                    HomeStep::Descend => depth > 0 && dir_found(
                        disk,
                        s,
                        path,
                        (depth - 1) as u32,
                        found,
                    ),
                    _ => found.len() == 0,
                },
            }
    }
}

/// `found` holds the path when the fact was said to hold of it.
pub open spec fn only_if<I: Fn(Fact, &str) -> bool>(
    is: I,
    fact: Fact,
    path: Seq<char>,
    found: Seq<Seq<char>>,
) -> bool {
    ||| said(is, fact, path, true) && found == seq![path]
    ||| said(is, fact, path, false) && found.len() == 0
}

fn walk_home_entry<
    L: Fn(&str) -> Vec<String>,
    K: Fn(&str) -> Option<NodeKind>,
    I: Fn(Fact, &str) -> bool,
    S: Fn(&str, &str),
>(
    disk: &HomeDisk<L, K, I, S>,
    s: Scan<'_>,
    path: &String,
    depth: u32,
    Ghost(root): Ghost<Seq<char>>,
) -> (r: Vec<String>)
    requires
        answers_home(*disk, s, root),
    ensures
        entry_found(*disk, s, path@, depth, views(r@)),
    decreases depth, 0nat,
{
    let mut out: Vec<String> = Vec::new();
    if let Some(why) = home_scan_skip_reason(s.home, path, s.config, s.xdg) {
        (disk.skip)(path, why);
        return out;
    }
    let kind = (disk.kind)(path);
    assert(sorted_as(disk.kind, path@, kind));
    let k = match kind {
        Some(k) => k,
        None => {
            return out;
        },
    };
    let step = home_step(path, k, depth);
    match step {
        HomeStep::Source => {
            out.push(path.clone());
            assert(views(out@) =~= seq![path@]);
        },
        HomeStep::SessionIndex => {
            let yes = (disk.is)(Fact::SessionIndex, path);
            assert(said(disk.is, Fact::SessionIndex, path@, yes));
            if yes {
                out.push(path.clone());
                assert(views(out@) =~= seq![path@]);
            } else {
                (disk.skip)(path, "empty sqlite file or no session_docs table");
            }
        },
        HomeStep::Zip => {
            let yes = (disk.is)(Fact::KnownZip, path);
            assert(said(disk.is, Fact::KnownZip, path@, yes));
            if yes {
                out.push(path.clone());
                assert(views(out@) =~= seq![path@]);
            }
        },
        HomeStep::Sessions(enter) => {
            (disk.skip)(path, "only session sqlite under .grok is a source");
            if enter && depth > 1 {
                let sessions = join_path(path, "sessions");
                assert(may_ask(s, root, sessions@));
                let yes = (disk.is)(Fact::OwnFolder, &sessions);
                assert(said(disk.is, Fact::OwnFolder, sessions@, yes));
                if yes {
                    out = walk_home_scan(disk, s, &sessions, depth - 2, Ghost(root));
                }
            }
        },
        HomeStep::Descend => {
            if depth > 0 {
                out = walk_home_scan(disk, s, path, depth - 1, Ghost(root));
            }
        },
        HomeStep::SkipLink => {
            (disk.skip)(path, "symlink");
        },
        HomeStep::Ignore => {},
    }
    out
}

fn walk_home_scan<
    L: Fn(&str) -> Vec<String>,
    K: Fn(&str) -> Option<NodeKind>,
    I: Fn(Fact, &str) -> bool,
    S: Fn(&str, &str),
>(
    disk: &HomeDisk<L, K, I, S>,
    s: Scan<'_>,
    dir: &str,
    depth: u32,
    Ghost(root): Ghost<Seq<char>>,
) -> (r: Vec<String>)
    requires
        answers_home(*disk, s, root),
        may_ask(s, root, dir@),
    ensures
        dir_found(*disk, s, dir@, depth, views(r@)),
    decreases depth, 1nat,
{
    let marks = DirMarks {
        obsidian: (disk.is)(Fact::Obsidian, dir),
        chatgpt: (disk.is)(Fact::ChatGpt, dir),
        facebook: (disk.is)(Fact::Facebook, dir),
        twitter: (disk.is)(Fact::Twitter, dir),
    };
    assert(marked(disk.is, dir@, marks));
    let mut out: Vec<String> = Vec::new();
    if home_dir_is_source(dir, marks) {
        out.push(dir.to_owned());
        assert(views(out@) =~= seq![dir@]);
        return out;
    }
    let all = (disk.list)(dir);
    assert(listed(disk.list, dir@, all));
    let ghost names = views(all@);
    let mut i: usize = 0;
    assert(names.take(0) =~= Seq::<Seq<char>>::empty());
    while i < all.len()
        invariant
            i <= all@.len(),
            names == views(all@),
            answers_home(*disk, s, root),
            entries_found(*disk, s, names.take(i as int), depth, views(out@)),
        decreases all.len() - i,
    {
        let mut more = walk_home_entry(disk, s, &all[i], depth, Ghost(root));
        let ghost held = views(out@);
        let ghost new = views(more@);
        out.append(&mut more);
        proof {
            assert(views(out@) =~= held + new);
            assert(views(out@).take(held.len() as int) =~= held);
            assert(views(out@).skip(held.len() as int) =~= new);
            assert(names.take(i + 1).drop_last() =~= names.take(i as int));
            assert(names.take(i + 1).last() == all@[i as int]@);
            let k = held.len() as int;
            assert(entries_found(
                *disk,
                s,
                names.take(i + 1).drop_last(),
                depth,
                views(out@).take(k),
            ));
            assert(entry_found(*disk, s, names.take(i + 1).last(), depth, views(out@).skip(k)));
            assert(entries_found(*disk, s, names.take(i + 1), depth, views(out@)));
        }
        i = i + 1;
    }
    assert(names.take(names.len() as int) =~= names);
    out
}

/// The known exports below a home folder: in path order, each path once.
pub fn discover_home_export_paths<
    L: Fn(&str) -> Vec<String>,
    K: Fn(&str) -> Option<NodeKind>,
    I: Fn(Fact, &str) -> bool,
    S: Fn(&str, &str),
>(disk: &HomeDisk<L, K, I, S>, s: Scan<'_>) -> (r: Vec<String>)
    requires
        answers_home(*disk, s, s.home@),
    ensures
        exists|found: Seq<String>, p: Seq<String>| #[trigger]
            sorted_paths(found, p) && dir_found(
                *disk,
                s,
                s.home@,
                s.config.scan.home_scan_max_depth,
                views(found),
            ) && views(r@) == deduped(views(p)),
{
    let found = walk_home_scan(
        disk,
        s,
        s.home,
        s.config.scan.home_scan_max_depth,
        Ghost(s.home@),
    );
    sorted_once(&found)
}

/// A home scan finds nothing that it skips by name. What it finds is the
/// folder it starts in, a path that is not skipped, or the `sessions` of one.
pub proof fn law_scan_finds_nothing_skipped<
    L: Fn(&str) -> Vec<String>,
    K: Fn(&str) -> Option<NodeKind>,
    I: Fn(Fact, &str) -> bool,
    S: Fn(&str, &str),
>(
    disk: HomeDisk<L, K, I, S>,
    s: Scan<'_>,
    root: Seq<char>,
    dir: Seq<char>,
    depth: u32,
    found: Seq<Seq<char>>,
    i: int,
)
    requires
        may_ask(s, root, dir),
        dir_found(disk, s, dir, depth, found),
        0 <= i < found.len(),
    ensures
        may_ask(s, root, found[i]),
    decreases depth, 2nat, 0nat,
{
    let m = choose|m: DirMarks| #[trigger]
        marked(disk.is, dir, m) && if m.obsidian || reports_dir(dir) || m.chatgpt || m.facebook
            || m.twitter {
            found == seq![dir]
        } else {
            exists|all: Vec<String>| #[trigger]
                listed(disk.list, dir, all) && entries_found(disk, s, views(all@), depth, found)
        };
    if !(m.obsidian || reports_dir(dir) || m.chatgpt || m.facebook || m.twitter) {
        let all = choose|all: Vec<String>| #[trigger]
            listed(disk.list, dir, all) && entries_found(disk, s, views(all@), depth, found);
        lemma_entries_not_skipped(disk, s, root, views(all@), depth, found, i);
    }
}

proof fn lemma_entries_not_skipped<
    L: Fn(&str) -> Vec<String>,
    K: Fn(&str) -> Option<NodeKind>,
    I: Fn(Fact, &str) -> bool,
    S: Fn(&str, &str),
>(
    disk: HomeDisk<L, K, I, S>,
    s: Scan<'_>,
    root: Seq<char>,
    all: Seq<Seq<char>>,
    depth: u32,
    found: Seq<Seq<char>>,
    i: int,
)
    requires
        entries_found(disk, s, all, depth, found),
        0 <= i < found.len(),
    ensures
        may_ask(s, root, found[i]),
    decreases depth, 1nat, all.len(),
{
    let k = choose|k: int|
        0 <= k <= found.len() && entries_found(
            disk,
            s,
            all.drop_last(),
            depth,
            #[trigger] found.take(k),
        ) && entry_found(disk, s, all.last(), depth, found.skip(k));
    if i < k {
        lemma_entries_not_skipped(disk, s, root, all.drop_last(), depth, found.take(k), i);
    } else {
        lemma_entry_not_skipped(disk, s, root, all.last(), depth, found.skip(k), i - k);
    }
}

proof fn lemma_entry_not_skipped<
    L: Fn(&str) -> Vec<String>,
    K: Fn(&str) -> Option<NodeKind>,
    I: Fn(Fact, &str) -> bool,
    S: Fn(&str, &str),
>(
    disk: HomeDisk<L, K, I, S>,
    s: Scan<'_>,
    root: Seq<char>,
    path: Seq<char>,
    depth: u32,
    found: Seq<Seq<char>>,
    i: int,
)
    requires
        entry_found(disk, s, path, depth, found),
        0 <= i < found.len(),
    ensures
        may_ask(s, root, found[i]),
    decreases depth, 0nat, 0nat,
{
    let sessions = joined(path, "sessions"@);
    assert(skipped(s, path) is None);
    assert(may_ask(s, root, path));
    assert(may_ask(s, root, sessions));
    if depth > 1 && dir_found(disk, s, sessions, (depth - 2) as u32, found) {
        law_scan_finds_nothing_skipped(
            disk,
            s,
            root,
            sessions,
            (depth - 2) as u32,
            found,
            i,
        );
    } else if depth > 0 && dir_found(disk, s, path, (depth - 1) as u32, found) {
        law_scan_finds_nothing_skipped(disk, s, root, path, (depth - 1) as u32, found, i);
    } else {
        assert(found == seq![path]);
    }
}

} // verus!
