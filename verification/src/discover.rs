//! The walks through a dump: which backend files and which sources it
//! holds. What is on disk is asked of the caller, one question at a time.
use vstd::prelude::*;

use crate::cards::{has_extension, path_has_extension};
use crate::names::{BACKEND_FILE_NAME, RESULT_FILE_NAME};
use crate::paths::{file_name, join_path, joined, opt_str};
use crate::scan::{
    backends_enter, chat_export, dir_probes, discover_dir_probes, discover_file, file_kind,
    is_agents_reports_dir, is_backend_file_name, is_chat_export, nested_probes, probe_kind,
    reports_dir, session_sqlite_by_name, source_step, source_view, sources_of,
    walk_backends_enters, walk_sources_probes, walk_sources_step, FileMarks, IngestSource,
    NodeKind, Probe, SourceKind, WalkStep, GROK_OSS_DB_NAME, SESSION_SEARCH_SQLITE_NAME,
    WALK_DEPTH,
};
use crate::sessions::{named, CHAT_HISTORY_FILE_NAME};
use crate::pack::says;
use crate::sources::no_node_error;
use crate::text::views;
use crate::walk::{Fact, Scan};
use crate::zip::{is_zip_path, zip_path};
use crate::Error;

verus! {

/// A path in a folder.
#[derive(Clone, Debug, PartialEq, Eq)]
pub struct Entry {
    pub path: String,
    pub kind: NodeKind,
}

/// What a walk through a dump asks about the disk.
pub struct Disk<N, E, I> {
    /// What a path leads to.
    pub node: N,
    /// The entries of a folder.
    pub entries: E,
    /// Whether something holds of a path.
    pub is: I,
}

/// The paths and kinds of entries.
pub open spec fn entry_views(all: Seq<Entry>) -> Seq<(Seq<char>, NodeKind)> {
    Seq::new(all.len(), |i: int| (all[i].path@, all[i].kind))
}

/// `r` is what a path was said to lead to.
pub open spec fn node_said<N: Fn(&str) -> Result<NodeKind, Error>>(
    node: N,
    path: Seq<char>,
    r: Result<NodeKind, Error>,
) -> bool {
    exists|p: &str| p@ == path && #[trigger] call_ensures(node, (p,), r)
}

/// `r` is what a folder was said to hold.
pub open spec fn entries_said<E: Fn(&str) -> Result<Vec<Entry>, Error>>(
    entries: E,
    dir: Seq<char>,
    r: Result<Vec<Entry>, Error>,
) -> bool {
    exists|p: &str| p@ == dir && #[trigger] call_ensures(entries, (p,), r)
}

/// `r` is what was said to hold of a path.
pub open spec fn told<I: Fn(Fact, &str) -> Result<bool, Error>>(
    is: I,
    fact: Fact,
    path: Seq<char>,
    r: Result<bool, Error>,
) -> bool {
    exists|p: &str| p@ == path && #[trigger] call_ensures(is, (fact, p), r)
}

/// The disk answers every question.
pub open spec fn answers<
    N: Fn(&str) -> Result<NodeKind, Error>,
    E: Fn(&str) -> Result<Vec<Entry>, Error>,
    I: Fn(Fact, &str) -> Result<bool, Error>,
>(disk: Disk<N, E, I>) -> bool {
    &&& forall|p: &str| #[trigger] call_requires(disk.node, (p,))
    &&& forall|p: &str| #[trigger] call_requires(disk.entries, (p,))
    &&& forall|f: Fact, p: &str| #[trigger] call_requires(disk.is, (f, p))
}

/// Two parts of a walk, one after the other. The first error stops it.
pub open spec fn chained<T>(
    first: Result<Seq<T>, Error>,
    second: Result<Seq<T>, Error>,
    r: Result<Seq<T>, Error>,
) -> bool {
    r == match first {
        Err(e) => Err(e),
        Ok(a) => match second {
            Err(e) => Err(e),
            Ok(b) => Ok(a + b),
        },
    }
}

/// What a walk came to, with the texts of the paths.
pub open spec fn paths_view(r: Result<Vec<String>, Error>) -> Result<Seq<Seq<char>>, Error> {
    match r {
        Ok(v) => Ok(views(v@)),
        Err(e) => Err(e),
    }
}

/// The path, when the answer is yes.
pub open spec fn path_if(yes: Result<bool, Error>, path: Seq<char>) -> Result<
    Seq<Seq<char>>,
    Error,
> {
    match yes {
        Ok(true) => Ok(seq![path]),
        Ok(false) => Ok(Seq::empty()),
        Err(e) => Err(e),
    }
}

/// `r` holds the backend files below a folder, as far down as `depth`
/// levels. A folder with a backend file is not entered.
pub open spec fn backends_below<
    N: Fn(&str) -> Result<NodeKind, Error>,
    E: Fn(&str) -> Result<Vec<Entry>, Error>,
    I: Fn(Fact, &str) -> Result<bool, Error>,
>(
    disk: Disk<N, E, I>,
    s: Scan<'_>,
    dir: Seq<char>,
    depth: u32,
    r: Result<Seq<Seq<char>>, Error>,
) -> bool
    decreases depth, 2nat, 0nat,
{
    if depth == 0 {
        r == Ok::<Seq<Seq<char>>, Error>(Seq::empty())
    } else {
        let backend = joined(dir, BACKEND_FILE_NAME@);
        exists|here: Result<bool, Error>| #[trigger]
            told(disk.is, Fact::File, backend, here) && if here == Ok::<bool, Error>(false) {
                exists|all: Result<Vec<Entry>, Error>| #[trigger]
                    entries_said(disk.entries, dir, all) && match all {
                        Ok(v) => backends_among(disk, s, entry_views(v@), depth, r),
                        Err(e) => r == Err::<Seq<Seq<char>>, Error>(e),
                    }
            } else {
                r == path_if(here, backend)
            }
    }
}

/// `r` holds the backend files below the entries of a folder, in order.
pub open spec fn backends_among<
    N: Fn(&str) -> Result<NodeKind, Error>,
    E: Fn(&str) -> Result<Vec<Entry>, Error>,
    I: Fn(Fact, &str) -> Result<bool, Error>,
>(
    disk: Disk<N, E, I>,
    s: Scan<'_>,
    all: Seq<(Seq<char>, NodeKind)>,
    depth: u32,
    r: Result<Seq<Seq<char>>, Error>,
) -> bool
    decreases depth, 1nat, all.len(),
{
    if all.len() == 0 {
        r == Ok::<Seq<Seq<char>>, Error>(Seq::empty())
    } else {
        exists|a: Result<Seq<Seq<char>>, Error>, b: Result<Seq<Seq<char>>, Error>| #[trigger]
            chained(a, b, r) && backends_among(disk, s, all.drop_last(), depth, a) && (a is Ok
                ==> backends_of_entry(disk, s, all.last(), depth, b))
    }
}

/// `r` holds the backend files below one entry of a folder. Only folders are
/// entered, and no folder of Telegram Desktop.
pub open spec fn backends_of_entry<
    N: Fn(&str) -> Result<NodeKind, Error>,
    E: Fn(&str) -> Result<Vec<Entry>, Error>,
    I: Fn(Fact, &str) -> Result<bool, Error>,
>(
    disk: Disk<N, E, I>,
    s: Scan<'_>,
    entry: (Seq<char>, NodeKind),
    depth: u32,
    r: Result<Seq<Seq<char>>, Error>,
) -> bool
    decreases depth, 0nat, 0nat,
{
    if depth == 0 || entry.1 != NodeKind::Directory || !backends_enter(
        entry.0,
        false,
        s.home@,
        *s.config,
        opt_str(s.xdg),
    ) {
        r == Ok::<Seq<Seq<char>>, Error>(Seq::empty())
    } else {
        exists|has: Result<bool, Error>| #[trigger]
            told(disk.is, Fact::File, joined(entry.0, RESULT_FILE_NAME@), has) && match has {
                Ok(h) => if chat_export(entry.0, h) {
                    r == Ok::<Seq<Seq<char>>, Error>(Seq::empty())
                } else {
                    backends_below(disk, s, entry.0, (depth - 1) as u32, r)
                },
                Err(e) => r == Err::<Seq<Seq<char>>, Error>(e),
            }
    }
}

/// An error stays the outcome, whatever comes later in the folder.
proof fn lemma_backends_stop<
    N: Fn(&str) -> Result<NodeKind, Error>,
    E: Fn(&str) -> Result<Vec<Entry>, Error>,
    I: Fn(Fact, &str) -> Result<bool, Error>,
>(
    disk: Disk<N, E, I>,
    s: Scan<'_>,
    all: Seq<(Seq<char>, NodeKind)>,
    k: int,
    depth: u32,
    e: Error,
)
    requires
        0 <= k <= all.len(),
        backends_among(disk, s, all.take(k), depth, Err(e)),
    ensures
        backends_among(disk, s, all, depth, Err(e)),
    decreases all.len(),
{
    if k == all.len() {
        assert(all.take(k) =~= all);
    } else {
        assert(all.drop_last().take(k) =~= all.take(k));
        lemma_backends_stop(disk, s, all.drop_last(), k, depth, e);
        let r: Result<Seq<Seq<char>>, Error> = Err(e);
        assert(chained(r, r, r));
    }
}

fn ask<
    N: Fn(&str) -> Result<NodeKind, Error>,
    E: Fn(&str) -> Result<Vec<Entry>, Error>,
    I: Fn(Fact, &str) -> Result<bool, Error>,
>(disk: &Disk<N, E, I>, fact: Fact, path: &str) -> (r: Result<bool, Error>)
    requires
        answers(*disk),
    ensures
        told(disk.is, fact, path@, r),
{
    (disk.is)(fact, path)
}

fn found_if(yes: Result<bool, Error>, path: String) -> (r: Result<Vec<String>, Error>)
    ensures
        paths_view(r) == path_if(yes, path@),
{
    match yes {
        Ok(yes) => {
            let mut out: Vec<String> = Vec::new();
            if yes {
                out.push(path);
                assert(views(out@) =~= seq![path@]);
            } else {
                assert(views(out@) =~= Seq::empty());
            }
            Ok(out)
        },
        Err(e) => Err(e),
    }
}

fn walk_backends_of_entry<
    N: Fn(&str) -> Result<NodeKind, Error>,
    E: Fn(&str) -> Result<Vec<Entry>, Error>,
    I: Fn(Fact, &str) -> Result<bool, Error>,
>(disk: &Disk<N, E, I>, s: Scan<'_>, entry: &Entry, depth: u32) -> (r: Result<Vec<String>, Error>)
    requires
        answers(*disk),
    ensures
        backends_of_entry(*disk, s, (entry.path@, entry.kind), depth, paths_view(r)),
    decreases depth, 0nat,
{
    let none: Vec<String> = Vec::new();
    assert(views(none@) =~= Seq::empty());
    if depth == 0 || entry.kind != NodeKind::Directory || !walk_backends_enters(
        &entry.path,
        false,
        s.home,
        s.config,
        s.xdg,
    ) {
        return Ok(none);
    }
    let has = match ask(disk, Fact::File, &join_path(&entry.path, RESULT_FILE_NAME)) {
        Ok(has) => has,
        Err(e) => {
            return Err(e);
        },
    };
    if is_chat_export(&entry.path, has) {
        Ok(none)
    } else {
        walk_grok_backends(disk, s, &entry.path, depth - 1)
    }
}

fn walk_backends_among<
    N: Fn(&str) -> Result<NodeKind, Error>,
    E: Fn(&str) -> Result<Vec<Entry>, Error>,
    I: Fn(Fact, &str) -> Result<bool, Error>,
>(disk: &Disk<N, E, I>, s: Scan<'_>, all: &Vec<Entry>, depth: u32) -> (r: Result<
    Vec<String>,
    Error,
>)
    requires
        answers(*disk),
    ensures
        backends_among(*disk, s, entry_views(all@), depth, paths_view(r)),
    decreases depth, 1nat,
{
    let ghost seen = entry_views(all@);
    let mut out: Vec<String> = Vec::new();
    let mut i: usize = 0;
    proof {
        assert(views(out@) =~= Seq::empty());
        assert(seen.take(0) =~= Seq::empty());
    }
    while i < all.len()
        invariant
            i <= all@.len(),
            seen == entry_views(all@),
            answers(*disk),
            backends_among(*disk, s, seen.take(i as int), depth, Ok(views(out@))),
        decreases all.len() - i,
    {
        let ghost held: Result<Seq<Seq<char>>, Error> = Ok(views(out@));
        let more = walk_backends_of_entry(disk, s, &all[i], depth);
        let ghost new = paths_view(more);
        proof {
            assert(seen.take(i + 1).drop_last() =~= seen.take(i as int));
            assert(seen.take(i + 1).last() == seen[i as int]);
        }
        match more {
            Ok(mut found) => {
                out.append(&mut found);
                proof {
                    assert(views(out@) =~= held->Ok_0 + new->Ok_0);
                    assert(chained(held, new, Ok(views(out@))));
                }
            },
            Err(e) => {
                proof {
                    let r: Result<Seq<Seq<char>>, Error> = Err(e);
                    assert(chained(held, new, r));
                    assert(backends_among(*disk, s, seen.take(i + 1), depth, r));
                    lemma_backends_stop(*disk, s, seen, i + 1, depth, e);
                }
                return Err(e);
            },
        }
        i = i + 1;
    }
    assert(seen.take(seen.len() as int) =~= seen);
    Ok(out)
}

/// The backend files below a folder.
pub fn walk_grok_backends<
    N: Fn(&str) -> Result<NodeKind, Error>,
    E: Fn(&str) -> Result<Vec<Entry>, Error>,
    I: Fn(Fact, &str) -> Result<bool, Error>,
>(disk: &Disk<N, E, I>, s: Scan<'_>, dir: &str, depth: u32) -> (r: Result<Vec<String>, Error>)
    requires
        answers(*disk),
    ensures
        backends_below(*disk, s, dir@, depth, paths_view(r)),
    decreases depth, 2nat,
{
    if depth == 0 {
        let none: Vec<String> = Vec::new();
        assert(views(none@) =~= Seq::empty());
        return Ok(none);
    }
    let backend = join_path(dir, BACKEND_FILE_NAME);
    let here = ask(disk, Fact::File, &backend);
    let inside = match here {
        Ok(yes) => !yes,
        Err(_) => false,
    };
    if !inside {
        return found_if(here, backend);
    }
    let listed = (disk.entries)(dir);
    assert(entries_said(disk.entries, dir@, listed));
    match listed {
        Ok(all) => walk_backends_among(disk, s, &all, depth),
        Err(e) => Err(e),
    }
}

/// `r` holds the backend files in the folders among `all`, in order.
pub open spec fn backends_inside<
    N: Fn(&str) -> Result<NodeKind, Error>,
    E: Fn(&str) -> Result<Vec<Entry>, Error>,
    I: Fn(Fact, &str) -> Result<bool, Error>,
>(
    disk: Disk<N, E, I>,
    all: Seq<(Seq<char>, NodeKind)>,
    r: Result<Seq<Seq<char>>, Error>,
) -> bool
    decreases all.len(),
{
    if all.len() == 0 {
        r == Ok::<Seq<Seq<char>>, Error>(Seq::empty())
    } else {
        let backend = joined(all.last().0, BACKEND_FILE_NAME@);
        exists|a: Result<Seq<Seq<char>>, Error>, b: Result<Seq<Seq<char>>, Error>| #[trigger]
            chained(a, b, r) && backends_inside(disk, all.drop_last(), a) && (a is Ok ==> if (
            all.last().1 == NodeKind::Directory) {
                exists|here: Result<bool, Error>| #[trigger]
                    told(disk.is, Fact::File, backend, here) && b == path_if(here, backend)
            } else {
                b == Ok::<Seq<Seq<char>>, Error>(Seq::empty())
            })
    }
}

proof fn lemma_inside_stops<
    N: Fn(&str) -> Result<NodeKind, Error>,
    E: Fn(&str) -> Result<Vec<Entry>, Error>,
    I: Fn(Fact, &str) -> Result<bool, Error>,
>(disk: Disk<N, E, I>, all: Seq<(Seq<char>, NodeKind)>, k: int, e: Error)
    requires
        0 <= k <= all.len(),
        backends_inside(disk, all.take(k), Err(e)),
    ensures
        backends_inside(disk, all, Err(e)),
    decreases all.len(),
{
    if k == all.len() {
        assert(all.take(k) =~= all);
    } else {
        assert(all.drop_last().take(k) =~= all.take(k));
        lemma_inside_stops(disk, all.drop_last(), k, e);
        let r: Result<Seq<Seq<char>>, Error> = Err(e);
        assert(chained(r, r, r));
    }
}

/// The backend files in the folders among the entries of a folder.
pub fn collect_uuid_backends<
    N: Fn(&str) -> Result<NodeKind, Error>,
    E: Fn(&str) -> Result<Vec<Entry>, Error>,
    I: Fn(Fact, &str) -> Result<bool, Error>,
>(disk: &Disk<N, E, I>, all: &Vec<Entry>) -> (r: Result<Vec<String>, Error>)
    requires
        answers(*disk),
    ensures
        backends_inside(*disk, entry_views(all@), paths_view(r)),
{
    let ghost seen = entry_views(all@);
    let mut out: Vec<String> = Vec::new();
    let mut i: usize = 0;
    proof {
        assert(views(out@) =~= Seq::empty());
        assert(seen.take(0) =~= Seq::empty());
    }
    while i < all.len()
        invariant
            i <= all@.len(),
            seen == entry_views(all@),
            answers(*disk),
            backends_inside(*disk, seen.take(i as int), Ok(views(out@))),
        decreases all.len() - i,
    {
        let ghost held: Result<Seq<Seq<char>>, Error> = Ok(views(out@));
        let more = if all[i].kind == NodeKind::Directory {
            let backend = join_path(&all[i].path, BACKEND_FILE_NAME);
            let here = ask(disk, Fact::File, &backend);
            found_if(here, backend)
        } else {
            let none: Vec<String> = Vec::new();
            assert(views(none@) =~= Seq::empty());
            Ok(none)
        };
        let ghost new = paths_view(more);
        proof {
            assert(seen.take(i + 1).drop_last() =~= seen.take(i as int));
            assert(seen.take(i + 1).last() == seen[i as int]);
        }
        match more {
            Ok(mut found) => {
                out.append(&mut found);
                proof {
                    assert(views(out@) =~= held->Ok_0 + new->Ok_0);
                    assert(chained(held, new, Ok(views(out@))));
                }
            },
            Err(e) => {
                proof {
                    let r: Result<Seq<Seq<char>>, Error> = Err(e);
                    assert(chained(held, new, r));
                    assert(backends_inside(*disk, seen.take(i + 1), r));
                    lemma_inside_stops(*disk, seen, i + 1, e);
                }
                return Err(e);
            },
        }
        i = i + 1;
    }
    assert(seen.take(seen.len() as int) =~= seen);
    Ok(out)
}

/// Where an official dump keeps its exports.
pub const EXPORT_DATA_DIR: &'static str = "ttl/30d/export_data";

/// `r` holds the backend files in the exports of an official dump. A folder
/// that is no such dump has none.
pub open spec fn official_backends<
    N: Fn(&str) -> Result<NodeKind, Error>,
    E: Fn(&str) -> Result<Vec<Entry>, Error>,
    I: Fn(Fact, &str) -> Result<bool, Error>,
>(disk: Disk<N, E, I>, dir: Seq<char>, r: Result<Seq<Seq<char>>, Error>) -> bool {
    let exports = joined(dir, EXPORT_DATA_DIR@);
    exists|there: Result<bool, Error>| #[trigger]
        told(disk.is, Fact::Folder, exports, there) && match there {
            Ok(true) => exists|all: Result<Vec<Entry>, Error>| #[trigger]
                entries_said(disk.entries, exports, all) && match all {
                    Ok(v) => backends_inside(disk, entry_views(v@), r),
                    Err(e) => r == Err::<Seq<Seq<char>>, Error>(e),
                },
            Ok(false) => r == Ok::<Seq<Seq<char>>, Error>(Seq::empty()),
            Err(e) => r == Err::<Seq<Seq<char>>, Error>(e),
        }
}

fn find_official_backends<
    N: Fn(&str) -> Result<NodeKind, Error>,
    E: Fn(&str) -> Result<Vec<Entry>, Error>,
    I: Fn(Fact, &str) -> Result<bool, Error>,
>(disk: &Disk<N, E, I>, dir: &str) -> (r: Result<Vec<String>, Error>)
    requires
        answers(*disk),
    ensures
        official_backends(*disk, dir@, paths_view(r)),
{
    let exports = join_path(dir, EXPORT_DATA_DIR);
    match ask(disk, Fact::Folder, &exports) {
        Ok(there) => {
            if !there {
                let none: Vec<String> = Vec::new();
                assert(views(none@) =~= Seq::empty());
                return Ok(none);
            }
            let listed = (disk.entries)(&exports);
            assert(entries_said(disk.entries, exports@, listed));
            match listed {
                Ok(all) => collect_uuid_backends(disk, &all),
                Err(e) => Err(e),
            }
        },
        Err(e) => Err(e),
    }
}

/// `r` holds the backend files of a folder: its own, else those of an
/// official dump, else those below it.
pub open spec fn folder_backends<
    N: Fn(&str) -> Result<NodeKind, Error>,
    E: Fn(&str) -> Result<Vec<Entry>, Error>,
    I: Fn(Fact, &str) -> Result<bool, Error>,
>(
    disk: Disk<N, E, I>,
    s: Scan<'_>,
    dir: Seq<char>,
    r: Result<Seq<Seq<char>>, Error>,
) -> bool {
    let direct = joined(dir, BACKEND_FILE_NAME@);
    exists|here: Result<bool, Error>| #[trigger]
        told(disk.is, Fact::File, direct, here) && if here == Ok::<bool, Error>(false) {
            exists|official: Result<Seq<Seq<char>>, Error>| #[trigger]
                official_backends(disk, dir, official) && if official == Ok::<
                    Seq<Seq<char>>,
                    Error,
                >(Seq::empty()) {
                    backends_below(disk, s, dir, WALK_DEPTH, r)
                } else {
                    r == official
                }
        } else {
            r == path_if(here, direct)
        }
}

/// `r` holds the backend files of an input. A folder of Telegram Desktop has
/// none.
pub open spec fn backends_at<
    N: Fn(&str) -> Result<NodeKind, Error>,
    E: Fn(&str) -> Result<Vec<Entry>, Error>,
    I: Fn(Fact, &str) -> Result<bool, Error>,
>(
    disk: Disk<N, E, I>,
    s: Scan<'_>,
    input: Seq<char>,
    r: Result<Seq<Seq<char>>, Error>,
) -> bool {
    exists|node: Result<NodeKind, Error>| #[trigger]
        node_said(disk.node, input, node) && match node {
            Ok(NodeKind::File) => r == path_if(
                Ok(file_name(input) == Some(BACKEND_FILE_NAME@)),
                input,
            ),
            Ok(NodeKind::Directory) => exists|has: Result<bool, Error>| #[trigger]
                told(disk.is, Fact::File, joined(input, RESULT_FILE_NAME@), has) && match has {
                    Ok(h) => if chat_export(input, h) {
                        r == Ok::<Seq<Seq<char>>, Error>(Seq::empty())
                    } else {
                        folder_backends(disk, s, input, r)
                    },
                    Err(e) => r == Err::<Seq<Seq<char>>, Error>(e),
                },
            Ok(_) => r == Ok::<Seq<Seq<char>>, Error>(Seq::empty()),
            Err(e) => r == Err::<Seq<Seq<char>>, Error>(e),
        }
}

fn find_folder_backends<
    N: Fn(&str) -> Result<NodeKind, Error>,
    E: Fn(&str) -> Result<Vec<Entry>, Error>,
    I: Fn(Fact, &str) -> Result<bool, Error>,
>(disk: &Disk<N, E, I>, s: Scan<'_>, dir: &str) -> (r: Result<Vec<String>, Error>)
    requires
        answers(*disk),
    ensures
        folder_backends(*disk, s, dir@, paths_view(r)),
{
    let direct = join_path(dir, BACKEND_FILE_NAME);
    let here = ask(disk, Fact::File, &direct);
    let further = match here {
        Ok(yes) => !yes,
        Err(_) => false,
    };
    if !further {
        return found_if(here, direct);
    }
    let official = find_official_backends(disk, dir);
    let none = match &official {
        Ok(found) => {
            assert(views(found@).len() == found@.len());
            found.len() == 0
        },
        Err(_) => false,
    };
    proof {
        if none {
            assert(paths_view(official)->Ok_0 =~= Seq::empty());
        }
    }
    if none {
        walk_grok_backends(disk, s, dir, WALK_DEPTH)
    } else {
        official
    }
}

/// The backend files of an input.
pub fn find_grok_backends<
    N: Fn(&str) -> Result<NodeKind, Error>,
    E: Fn(&str) -> Result<Vec<Entry>, Error>,
    I: Fn(Fact, &str) -> Result<bool, Error>,
>(disk: &Disk<N, E, I>, s: Scan<'_>, input: &str) -> (r: Result<Vec<String>, Error>)
    requires
        answers(*disk),
    ensures
        backends_at(*disk, s, input@, paths_view(r)),
{
    let node = (disk.node)(input);
    assert(node_said(disk.node, input@, node));
    let none: Vec<String> = Vec::new();
    assert(views(none@) =~= Seq::empty());
    match node {
        Ok(NodeKind::File) => found_if(Ok(is_backend_file_name(input)), input.to_owned()),
        Ok(NodeKind::Directory) => {
            match ask(disk, Fact::File, &join_path(input, RESULT_FILE_NAME)) {
                Ok(has) => if is_chat_export(input, has) {
                    Ok(none)
                } else {
                    find_folder_backends(disk, s, input)
                },
                Err(e) => Err(e),
            }
        },
        Ok(_) => Ok(none),
        Err(e) => Err(e),
    }
}

/// What a walk for sources came to.
pub open spec fn sources_view(r: Result<Vec<IngestSource>, Error>) -> Result<
    Seq<(SourceKind, Seq<char>)>,
    Error,
> {
    match r {
        Ok(v) => Ok(v@.map_values(|x: IngestSource| source_view(x))),
        Err(e) => Err(e),
    }
}

/// The fact that a question about a folder asks for.
pub open spec fn probe_fact(p: Probe) -> Option<Fact> {
    match p {
        Probe::ChatGpt => Some(Fact::ChatGpt),
        Probe::Facebook => Some(Fact::Facebook),
        Probe::Twitter => Some(Fact::Twitter),
        Probe::Obsidian => Some(Fact::Obsidian),
        Probe::Markdown => Some(Fact::Markdown),
        Probe::Characters => Some(Fact::Characters),
        Probe::Backends | Probe::Telegram | Probe::Reports | Probe::ChatHistory => None,
    }
}

/// `r` holds the document `result.json` of a folder, where that is a source.
pub open spec fn telegram_in<
    N: Fn(&str) -> Result<NodeKind, Error>,
    E: Fn(&str) -> Result<Vec<Entry>, Error>,
    I: Fn(Fact, &str) -> Result<bool, Error>,
>(
    disk: Disk<N, E, I>,
    dir: Seq<char>,
    r: Result<Seq<Seq<char>>, Error>,
) -> bool {
    let result = joined(dir, RESULT_FILE_NAME@);
    exists|is_telegram: Result<bool, Error>| #[trigger]
        told(disk.is, Fact::Telegram, result, is_telegram) && if is_telegram == Ok::<bool, Error>(
            false,
        ) {
            exists|has: Result<bool, Error>| #[trigger]
                told(disk.is, Fact::File, result, has) && r == (match has {
                    Ok(h) => path_if(Ok(chat_export(dir, h)), result),
                    Err(e) => Err(e),
                })
        } else {
            r == path_if(is_telegram, result)
        }
}

/// `r` holds what a question finds in a folder. A folder inside a dump is
/// only asked for its own backend file.
pub open spec fn probed<
    N: Fn(&str) -> Result<NodeKind, Error>,
    E: Fn(&str) -> Result<Vec<Entry>, Error>,
    I: Fn(Fact, &str) -> Result<bool, Error>,
>(
    disk: Disk<N, E, I>,
    s: Scan<'_>,
    dir: Seq<char>,
    p: Probe,
    nested: bool,
    r: Result<Seq<Seq<char>>, Error>,
) -> bool {
    match p {
        Probe::Backends => if nested {
            own_file(disk, dir, BACKEND_FILE_NAME@, joined(dir, BACKEND_FILE_NAME@), r)
        } else {
            backends_at(disk, s, dir, r)
        },
        Probe::Telegram => telegram_in(disk, dir, r),
        Probe::Reports => r == path_if(Ok(reports_dir(dir)), dir),
        Probe::ChatHistory => own_file(disk, dir, CHAT_HISTORY_FILE_NAME@, dir, r),
        _ => probe_fact(p) matches Some(fact) && exists|yes: Result<bool, Error>| #[trigger]
            told(disk.is, fact, dir, yes) && r == path_if(yes, dir),
    }
}

/// `r` holds `path` when there is a file of that name in a folder.
pub open spec fn own_file<
    N: Fn(&str) -> Result<NodeKind, Error>,
    E: Fn(&str) -> Result<Vec<Entry>, Error>,
    I: Fn(Fact, &str) -> Result<bool, Error>,
>(
    disk: Disk<N, E, I>,
    dir: Seq<char>,
    name: Seq<char>,
    path: Seq<char>,
    r: Result<Seq<Seq<char>>, Error>,
) -> bool {
    exists|yes: Result<bool, Error>| #[trigger]
        told(disk.is, Fact::File, joined(dir, name), yes) && r == path_if(yes, path)
}

fn fact_of(p: Probe) -> (r: Option<Fact>)
    ensures
        r == probe_fact(p),
{
    match p {
        Probe::ChatGpt => Some(Fact::ChatGpt),
        Probe::Facebook => Some(Fact::Facebook),
        Probe::Twitter => Some(Fact::Twitter),
        Probe::Obsidian => Some(Fact::Obsidian),
        Probe::Markdown => Some(Fact::Markdown),
        Probe::Characters => Some(Fact::Characters),
        Probe::Backends | Probe::Telegram | Probe::Reports | Probe::ChatHistory => None,
    }
}

/// The document `result.json` of a folder, where that is a source: it is a
/// Telegram document, or the folder is named like a chat export.
pub fn telegram_result_in_dir<
    N: Fn(&str) -> Result<NodeKind, Error>,
    E: Fn(&str) -> Result<Vec<Entry>, Error>,
    I: Fn(Fact, &str) -> Result<bool, Error>,
>(disk: &Disk<N, E, I>, dir: &str) -> (r: Result<Vec<String>, Error>)
    requires
        answers(*disk),
    ensures
        telegram_in(*disk, dir@, paths_view(r)),
{
    let result = join_path(dir, RESULT_FILE_NAME);
    let is_telegram = ask(disk, Fact::Telegram, &result);
    let further = match is_telegram {
        Ok(yes) => !yes,
        Err(_) => false,
    };
    if !further {
        return found_if(is_telegram, result);
    }
    match ask(disk, Fact::File, &result) {
        Ok(has) => found_if(Ok(is_chat_export(dir, has)), result),
        Err(e) => Err(e),
    }
}

/// What a question finds in a folder.
pub fn probe<
    N: Fn(&str) -> Result<NodeKind, Error>,
    E: Fn(&str) -> Result<Vec<Entry>, Error>,
    I: Fn(Fact, &str) -> Result<bool, Error>,
>(
    disk: &Disk<N, E, I>,
    s: Scan<'_>,
    dir: &str,
    p: Probe,
    nested: bool,
) -> (r: Result<Vec<String>, Error>)
    requires
        answers(*disk),
    ensures
        probed(*disk, s, dir@, p, nested, paths_view(r)),
{
    match p {
        Probe::Backends => if nested {
            let backend = join_path(dir, BACKEND_FILE_NAME);
            let yes = ask(disk, Fact::File, &backend);
            found_if(yes, backend)
        } else {
            find_grok_backends(disk, s, dir)
        },
        Probe::Telegram => telegram_result_in_dir(disk, dir),
        Probe::Reports => found_if(Ok(is_agents_reports_dir(dir)), dir.to_owned()),
        Probe::ChatHistory => {
            let yes = ask(disk, Fact::File, &join_path(dir, CHAT_HISTORY_FILE_NAME));
            found_if(yes, dir.to_owned())
        },
        _ => {
            let fact = match fact_of(p) {
                Some(fact) => fact,
                None => Fact::File,
            };
            let yes = ask(disk, fact, dir);
            found_if(yes, dir.to_owned())
        },
    }
}

/// The sources that the answer to a question makes.
pub open spec fn made(p: Probe, found: Seq<Seq<char>>) -> Seq<(SourceKind, Seq<char>)> {
    found.map_values(|path: Seq<char>| (probe_kind(p), path))
}

/// `r` holds the sources of the first question that finds something.
pub open spec fn first_found<
    N: Fn(&str) -> Result<NodeKind, Error>,
    E: Fn(&str) -> Result<Vec<Entry>, Error>,
    I: Fn(Fact, &str) -> Result<bool, Error>,
>(
    disk: Disk<N, E, I>,
    s: Scan<'_>,
    dir: Seq<char>,
    asked: Seq<Probe>,
    nested: bool,
    r: Result<Seq<(SourceKind, Seq<char>)>, Error>,
) -> bool
    decreases asked.len(),
{
    if asked.len() == 0 {
        r == Ok::<Seq<(SourceKind, Seq<char>)>, Error>(Seq::empty())
    } else {
        exists|found: Result<Seq<Seq<char>>, Error>| #[trigger]
            probed(disk, s, dir, asked[0], nested, found) && match found {
                Ok(v) => if v.len() == 0 {
                    first_found(disk, s, dir, asked.drop_first(), nested, r)
                } else {
                    r == Ok::<Seq<(SourceKind, Seq<char>)>, Error>(made(asked[0], v))
                },
                Err(e) => r == Err::<Seq<(SourceKind, Seq<char>)>, Error>(e),
            }
    }
}

fn ask_in_order<
    N: Fn(&str) -> Result<NodeKind, Error>,
    E: Fn(&str) -> Result<Vec<Entry>, Error>,
    I: Fn(Fact, &str) -> Result<bool, Error>,
>(
    disk: &Disk<N, E, I>,
    s: Scan<'_>,
    dir: &str,
    asked: &Vec<Probe>,
    from: usize,
    nested: bool,
) -> (r: Result<Vec<IngestSource>, Error>)
    requires
        answers(*disk),
        from <= asked@.len(),
    ensures
        first_found(*disk, s, dir@, asked@.skip(from as int), nested, sources_view(r)),
    decreases asked.len() - from,
{
    let ghost rest = asked@.skip(from as int);
    if from == asked.len() {
        let none: Vec<IngestSource> = Vec::new();
        assert(sources_view(Ok(none))->Ok_0 =~= Seq::empty());
        return Ok(none);
    }
    assert(rest[0] == asked@[from as int]);
    assert(rest.drop_first() =~= asked@.skip(from + 1));
    let p = asked[from];
    let found = probe(disk, s, dir, p, nested);
    match found {
        Ok(v) => {
            assert(views(v@).len() == v@.len());
            if v.len() == 0 {
                ask_in_order(disk, s, dir, asked, from + 1, nested)
            } else {
                let out = sources_of(p, &v);
                assert(sources_view(Ok(out))->Ok_0 =~= made(p, views(v@)));
                Ok(out)
            }
        },
        Err(e) => Err(e),
    }
}

/// `r` holds the sources in a folder of a dump, as far down as `depth`
/// levels. A folder that is a source is not entered.
pub open spec fn sources_below<
    N: Fn(&str) -> Result<NodeKind, Error>,
    E: Fn(&str) -> Result<Vec<Entry>, Error>,
    I: Fn(Fact, &str) -> Result<bool, Error>,
>(
    disk: Disk<N, E, I>,
    s: Scan<'_>,
    dir: Seq<char>,
    depth: u32,
    r: Result<Seq<(SourceKind, Seq<char>)>, Error>,
) -> bool
    decreases depth, 2nat, 0nat,
{
    if depth == 0 {
        r == Ok::<Seq<(SourceKind, Seq<char>)>, Error>(Seq::empty())
    } else {
        exists|own: Result<Seq<(SourceKind, Seq<char>)>, Error>| #[trigger]
            own_sources(disk, s, dir, true, own) && if own == Ok::<
                Seq<(SourceKind, Seq<char>)>,
                Error,
            >(Seq::empty()) {
                exists|all: Result<Vec<Entry>, Error>| #[trigger]
                    entries_said(disk.entries, dir, all) && match all {
                        Ok(v) => sources_among(disk, s, entry_views(v@), depth, r),
                        Err(e) => r == Err::<Seq<(SourceKind, Seq<char>)>, Error>(e),
                    }
            } else {
                r == own
            }
    }
}

/// `r` holds the sources that a folder itself is, by the first question that
/// finds something.
pub open spec fn own_sources<
    N: Fn(&str) -> Result<NodeKind, Error>,
    E: Fn(&str) -> Result<Vec<Entry>, Error>,
    I: Fn(Fact, &str) -> Result<bool, Error>,
>(
    disk: Disk<N, E, I>,
    s: Scan<'_>,
    dir: Seq<char>,
    nested: bool,
    r: Result<Seq<(SourceKind, Seq<char>)>, Error>,
) -> bool {
    exists|has: Result<bool, Error>| #[trigger]
        told(disk.is, Fact::File, joined(dir, RESULT_FILE_NAME@), has) && match has {
            Ok(h) => first_found(
                disk,
                s,
                dir,
                if nested {
                    nested_probes(dir, h)
                } else {
                    dir_probes(dir, h)
                },
                nested,
                r,
            ),
            Err(e) => r == Err::<Seq<(SourceKind, Seq<char>)>, Error>(e),
        }
}

/// `r` holds the sources in the entries of a folder, in order.
pub open spec fn sources_among<
    N: Fn(&str) -> Result<NodeKind, Error>,
    E: Fn(&str) -> Result<Vec<Entry>, Error>,
    I: Fn(Fact, &str) -> Result<bool, Error>,
>(
    disk: Disk<N, E, I>,
    s: Scan<'_>,
    all: Seq<(Seq<char>, NodeKind)>,
    depth: u32,
    r: Result<Seq<(SourceKind, Seq<char>)>, Error>,
) -> bool
    decreases depth, 1nat, all.len(),
{
    if all.len() == 0 {
        r == Ok::<Seq<(SourceKind, Seq<char>)>, Error>(Seq::empty())
    } else {
        exists|
            a: Result<Seq<(SourceKind, Seq<char>)>, Error>,
            b: Result<Seq<(SourceKind, Seq<char>)>, Error>,
        | #[trigger]
            chained(a, b, r) && sources_among(disk, s, all.drop_last(), depth, a) && (a is Ok
                ==> sources_of_entry(disk, s, all.last(), depth, b))
    }
}

/// `r` holds the sources in one entry of a folder: a zip with a known
/// export, or what is below a folder.
pub open spec fn sources_of_entry<
    N: Fn(&str) -> Result<NodeKind, Error>,
    E: Fn(&str) -> Result<Vec<Entry>, Error>,
    I: Fn(Fact, &str) -> Result<bool, Error>,
>(
    disk: Disk<N, E, I>,
    s: Scan<'_>,
    entry: (Seq<char>, NodeKind),
    depth: u32,
    r: Result<Seq<(SourceKind, Seq<char>)>, Error>,
) -> bool
    decreases depth, 0nat, 0nat,
{
    match source_step(entry.0, entry.1, s.home@, *s.config, opt_str(s.xdg)) {
        WalkStep::Zip => exists|known: Result<bool, Error>| #[trigger]
            told(disk.is, Fact::KnownZip, entry.0, known) && r == (match known {
                Ok(true) => Ok(seq![(SourceKind::Zip, entry.0)]),
                Ok(false) => Ok(Seq::empty()),
                Err(e) => Err(e),
            }),
        WalkStep::Descend => if depth == 0 {
            r == Ok::<Seq<(SourceKind, Seq<char>)>, Error>(Seq::empty())
        } else {
            sources_below(disk, s, entry.0, (depth - 1) as u32, r)
        },
        _ => r == Ok::<Seq<(SourceKind, Seq<char>)>, Error>(Seq::empty()),
    }
}

proof fn lemma_sources_stop<
    N: Fn(&str) -> Result<NodeKind, Error>,
    E: Fn(&str) -> Result<Vec<Entry>, Error>,
    I: Fn(Fact, &str) -> Result<bool, Error>,
>(
    disk: Disk<N, E, I>,
    s: Scan<'_>,
    all: Seq<(Seq<char>, NodeKind)>,
    k: int,
    depth: u32,
    e: Error,
)
    requires
        0 <= k <= all.len(),
        sources_among(disk, s, all.take(k), depth, Err(e)),
    ensures
        sources_among(disk, s, all, depth, Err(e)),
    decreases all.len(),
{
    if k == all.len() {
        assert(all.take(k) =~= all);
    } else {
        assert(all.drop_last().take(k) =~= all.take(k));
        lemma_sources_stop(disk, s, all.drop_last(), k, depth, e);
        let r: Result<Seq<(SourceKind, Seq<char>)>, Error> = Err(e);
        assert(chained(r, r, r));
    }
}

fn find_own_sources<
    N: Fn(&str) -> Result<NodeKind, Error>,
    E: Fn(&str) -> Result<Vec<Entry>, Error>,
    I: Fn(Fact, &str) -> Result<bool, Error>,
>(disk: &Disk<N, E, I>, s: Scan<'_>, dir: &str, nested: bool) -> (r: Result<
    Vec<IngestSource>,
    Error,
>)
    requires
        answers(*disk),
    ensures
        own_sources(*disk, s, dir@, nested, sources_view(r)),
{
    match ask(disk, Fact::File, &join_path(dir, RESULT_FILE_NAME)) {
        Ok(has) => {
            let asked = if nested {
                walk_sources_probes(dir, has)
            } else {
                discover_dir_probes(dir, has)
            };
            assert(asked@.skip(0) =~= asked@);
            ask_in_order(disk, s, dir, &asked, 0, nested)
        },
        Err(e) => Err(e),
    }
}

fn no_sources() -> (r: Vec<IngestSource>)
    ensures
        sources_view(Ok(r)) == Ok::<Seq<(SourceKind, Seq<char>)>, Error>(Seq::empty()),
{
    let none: Vec<IngestSource> = Vec::new();
    assert(none@.map_values(|x: IngestSource| source_view(x)) =~= Seq::empty());
    none
}

fn walk_sources_of_entry<
    N: Fn(&str) -> Result<NodeKind, Error>,
    E: Fn(&str) -> Result<Vec<Entry>, Error>,
    I: Fn(Fact, &str) -> Result<bool, Error>,
>(disk: &Disk<N, E, I>, s: Scan<'_>, entry: &Entry, depth: u32) -> (r:
    Result<Vec<IngestSource>, Error>)
    requires
        answers(*disk),
    ensures
        sources_of_entry(*disk, s, (entry.path@, entry.kind), depth, sources_view(r)),
    decreases depth, 0nat,
{
    match walk_sources_step(&entry.path, entry.kind, s.home, s.config, s.xdg) {
        WalkStep::Zip => match ask(disk, Fact::KnownZip, &entry.path) {
            Ok(known) => {
                let mut out = no_sources();
                if known {
                    out.push(IngestSource { kind: SourceKind::Zip, path: entry.path.clone() });
                    assert(sources_view(Ok(out))->Ok_0 =~= seq![(SourceKind::Zip, entry.path@)]);
                }
                Ok(out)
            },
            Err(e) => Err(e),
        },
        WalkStep::Descend => if depth == 0 {
            Ok(no_sources())
        } else {
            walk_sources(disk, s, &entry.path, depth - 1)
        },
        _ => Ok(no_sources()),
    }
}

fn walk_sources_among<
    N: Fn(&str) -> Result<NodeKind, Error>,
    E: Fn(&str) -> Result<Vec<Entry>, Error>,
    I: Fn(Fact, &str) -> Result<bool, Error>,
>(disk: &Disk<N, E, I>, s: Scan<'_>, all: &Vec<Entry>, depth: u32) -> (r:
    Result<Vec<IngestSource>, Error>)
    requires
        answers(*disk),
    ensures
        sources_among(*disk, s, entry_views(all@), depth, sources_view(r)),
    decreases depth, 1nat,
{
    let ghost seen = entry_views(all@);
    let mut out = no_sources();
    let mut i: usize = 0;
    assert(seen.take(0) =~= Seq::empty());
    while i < all.len()
        invariant
            i <= all@.len(),
            seen == entry_views(all@),
            answers(*disk),
            sources_among(*disk, s, seen.take(i as int), depth, sources_view(Ok(out))),
        decreases all.len() - i,
    {
        let ghost held = sources_view(Ok(out));
        let more = walk_sources_of_entry(disk, s, &all[i], depth);
        let ghost new = sources_view(more);
        proof {
            assert(seen.take(i + 1).drop_last() =~= seen.take(i as int));
            assert(seen.take(i + 1).last() == seen[i as int]);
        }
        match more {
            Ok(mut found) => {
                out.append(&mut found);
                proof {
                    assert(sources_view(Ok(out))->Ok_0 =~= held->Ok_0 + new->Ok_0);
                    assert(chained(held, new, sources_view(Ok(out))));
                }
            },
            Err(e) => {
                proof {
                    let r: Result<Seq<(SourceKind, Seq<char>)>, Error> = Err(e);
                    assert(chained(held, new, r));
                    assert(sources_among(*disk, s, seen.take(i + 1), depth, r));
                    lemma_sources_stop(*disk, s, seen, i + 1, depth, e);
                }
                return Err(e);
            },
        }
        i = i + 1;
    }
    assert(seen.take(seen.len() as int) =~= seen);
    Ok(out)
}

/// The sources in a folder of a dump.
pub fn walk_sources<
    N: Fn(&str) -> Result<NodeKind, Error>,
    E: Fn(&str) -> Result<Vec<Entry>, Error>,
    I: Fn(Fact, &str) -> Result<bool, Error>,
>(disk: &Disk<N, E, I>, s: Scan<'_>, dir: &str, depth: u32) -> (r: Result<
    Vec<IngestSource>,
    Error,
>)
    requires
        answers(*disk),
    ensures
        sources_below(*disk, s, dir@, depth, sources_view(r)),
    decreases depth, 2nat,
{
    if depth == 0 {
        return Ok(no_sources());
    }
    let own = find_own_sources(disk, s, dir, true);
    let none = match &own {
        Ok(found) => {
            assert(sources_view(own)->Ok_0.len() == found@.len());
            found.len() == 0
        },
        Err(_) => false,
    };
    proof {
        if none {
            assert(sources_view(own)->Ok_0 =~= Seq::empty());
        }
    }
    if !none {
        return own;
    }
    let listed = (disk.entries)(dir);
    assert(entries_said(disk.entries, dir@, listed));
    match listed {
        Ok(all) => walk_sources_among(disk, s, &all, depth),
        Err(e) => Err(e),
    }
}

/// `r` is the answer to a question that is only asked where it matters. One
/// that is not asked is answered no.
pub open spec fn told_if<
    N: Fn(&str) -> Result<NodeKind, Error>,
    E: Fn(&str) -> Result<Vec<Entry>, Error>,
    I: Fn(Fact, &str) -> Result<bool, Error>,
>(
    disk: Disk<N, E, I>,
    asked: bool,
    fact: Fact,
    path: Seq<char>,
    r: Result<bool, Error>,
) -> bool {
    if asked {
        told(disk.is, fact, path, r)
    } else {
        r == Ok::<bool, Error>(false)
    }
}

fn ask_if<
    N: Fn(&str) -> Result<NodeKind, Error>,
    E: Fn(&str) -> Result<Vec<Entry>, Error>,
    I: Fn(Fact, &str) -> Result<bool, Error>,
>(disk: &Disk<N, E, I>, asked: bool, fact: Fact, path: &str) -> (r: Result<bool, Error>)
    requires
        answers(*disk),
    ensures
        told_if(*disk, asked, fact, path@, r),
{
    if asked {
        ask(disk, fact, path)
    } else {
        Ok(false)
    }
}

/// The name leaves open whether a file is a session index.
pub open spec fn asks_for_sessions(path: Seq<char>) -> bool {
    !zip_path(path) && !named(path, GROK_OSS_DB_NAME@) && !named(path, SESSION_SEARCH_SQLITE_NAME@)
}

/// Nothing but a Telegram document can this file be.
pub open spec fn asks_for_telegram(path: Seq<char>, session_docs: bool) -> bool {
    file_kind(
        path,
        FileMarks { session_docs, telegram: true, in_chatgpt_dir: false, story_cards: false },
    ) == Some(SourceKind::Telegram)
}

/// This file is one of a ChatGPT export, or would be in its folder.
pub open spec fn asks_for_chatgpt(path: Seq<char>, session_docs: bool, telegram: bool) -> bool {
    file_kind(
        path,
        FileMarks { session_docs, telegram, in_chatgpt_dir: true, story_cards: false },
    ) == Some(SourceKind::ChatGpt)
}

/// Nothing else decides what this JSON file is.
pub open spec fn asks_for_cards(
    path: Seq<char>,
    session_docs: bool,
    telegram: bool,
    in_chatgpt_dir: bool,
) -> bool {
    has_extension(path, "json"@) && file_kind(
        path,
        FileMarks { session_docs, telegram, in_chatgpt_dir, story_cards: true },
    ) == Some(SourceKind::StoryCards)
}

/// Whether a file with these marks is a source of this kind.
fn is_of_kind(path: &str, m: FileMarks, kind: SourceKind) -> (r: bool)
    ensures
        r == (file_kind(path@, m) == Some(kind)),
{
    match discover_file(path, "", m) {
        Ok(source) => source.kind == kind,
        Err(_) => false,
    }
}

/// `r` is what was said of a file. The first error stops the questions.
pub open spec fn file_marked<
    N: Fn(&str) -> Result<NodeKind, Error>,
    E: Fn(&str) -> Result<Vec<Entry>, Error>,
    I: Fn(Fact, &str) -> Result<bool, Error>,
>(
    disk: Disk<N, E, I>,
    path: Seq<char>,
    r: Result<FileMarks, Error>,
) -> bool {
    exists|docs: Result<bool, Error>| #[trigger]
        told_if(disk, asks_for_sessions(path), Fact::SessionIndex, path, docs) && match docs {
            Err(e) => r == Err::<FileMarks, Error>(e),
            Ok(session_docs) => exists|telegram: Result<bool, Error>| #[trigger]
                told_if(
                    disk,
                    asks_for_telegram(path, session_docs),
                    Fact::Telegram,
                    path,
                    telegram,
                )
                    && match telegram {
                    Err(e) => r == Err::<FileMarks, Error>(e),
                    Ok(telegram) => exists|chatgpt: Result<bool, Error>| #[trigger]
                        told_if(
                            disk,
                            asks_for_chatgpt(path, session_docs, telegram),
                            Fact::InChatGpt,
                            path,
                            chatgpt,
                        )
                            && match chatgpt {
                            Err(e) => r == Err::<FileMarks, Error>(e),
                            Ok(in_chatgpt_dir) => exists|cards: Result<bool, Error>| #[trigger]
                                told_if(
                                    disk,
                                    asks_for_cards(path, session_docs, telegram, in_chatgpt_dir),
                                    Fact::StoryCards,
                                    path,
                                    cards,
                                ) && r == (match cards {
                                    Err(e) => Err(e),
                                    Ok(story_cards) => Ok(
                                        FileMarks {
                                            session_docs,
                                            telegram,
                                            in_chatgpt_dir,
                                            story_cards,
                                        },
                                    ),
                                }),
                        },
                },
        }
}

fn mark_file<
    N: Fn(&str) -> Result<NodeKind, Error>,
    E: Fn(&str) -> Result<Vec<Entry>, Error>,
    I: Fn(Fact, &str) -> Result<bool, Error>,
>(disk: &Disk<N, E, I>, path: &str) -> (r: Result<FileMarks, Error>)
    requires
        answers(*disk),
    ensures
        file_marked(*disk, path@, r),
{
    let docs = ask_if(
        disk,
        !is_zip_path(path) && session_sqlite_by_name(path).is_none(),
        Fact::SessionIndex,
        path,
    );
    assert(told_if(*disk, asks_for_sessions(path@), Fact::SessionIndex, path@, docs));
    let session_docs = match docs {
        Ok(yes) => yes,
        Err(e) => {
            return Err(e);
        },
    };
    let asked = is_of_kind(
        path,
        FileMarks { session_docs, telegram: true, in_chatgpt_dir: false, story_cards: false },
        SourceKind::Telegram,
    );
    let telegram = ask_if(disk, asked, Fact::Telegram, path);
    assert(told_if(
        *disk,
        asks_for_telegram(path@, session_docs),
        Fact::Telegram,
        path@,
        telegram,
    ));
    let is_telegram = match telegram {
        Ok(yes) => yes,
        Err(e) => {
            return Err(e);
        },
    };
    let asked = is_of_kind(
        path,
        FileMarks {
            session_docs,
            telegram: is_telegram,
            in_chatgpt_dir: true,
            story_cards: false,
        },
        SourceKind::ChatGpt,
    );
    let chatgpt = ask_if(disk, asked, Fact::InChatGpt, path);
    assert(told_if(
        *disk,
        asks_for_chatgpt(path@, session_docs, is_telegram),
        Fact::InChatGpt,
        path@,
        chatgpt,
    ));
    let in_chatgpt_dir = match chatgpt {
        Ok(yes) => yes,
        Err(e) => {
            return Err(e);
        },
    };
    let open = is_of_kind(
        path,
        FileMarks { session_docs, telegram: is_telegram, in_chatgpt_dir, story_cards: true },
        SourceKind::StoryCards,
    );
    let cards = ask_if(
        disk,
        path_has_extension(path, "json") && open,
        Fact::StoryCards,
        path,
    );
    assert(told_if(
        *disk,
        asks_for_cards(path@, session_docs, is_telegram, in_chatgpt_dir),
        Fact::StoryCards,
        path@,
        cards,
    ));
    match cards {
        Ok(story_cards) => Ok(
            FileMarks { session_docs, telegram: is_telegram, in_chatgpt_dir, story_cards },
        ),
        Err(e) => Err(e),
    }
}

/// `r` is the source that a file is.
pub open spec fn file_source(
    path: Seq<char>,
    parent: Seq<char>,
    m: FileMarks,
    r: Result<Seq<(SourceKind, Seq<char>)>, Error>,
) -> bool {
    match r {
        Ok(v) => file_kind(path, m) matches Some(kind) && v == seq![
            (
                kind,
                if kind == SourceKind::ChatGpt && m.in_chatgpt_dir {
                    parent
                } else {
                    path
                },
            ),
        ],
        Err(e) => file_kind(path, m) is None && says(
            e,
            path + " is named result.json but is not a Telegram Desktop export"@,
        ),
    }
}

/// `r` holds the sources of an input: the file itself, what the folder is,
/// or else what is below the folder.
pub open spec fn sources_at<
    N: Fn(&str) -> Result<NodeKind, Error>,
    E: Fn(&str) -> Result<Vec<Entry>, Error>,
    I: Fn(Fact, &str) -> Result<bool, Error>,
>(
    disk: Disk<N, E, I>,
    s: Scan<'_>,
    input: Seq<char>,
    parent: Seq<char>,
    r: Result<Seq<(SourceKind, Seq<char>)>, Error>,
) -> bool {
    exists|node: Result<NodeKind, Error>| #[trigger]
        node_said(disk.node, input, node) && match node {
            Ok(NodeKind::File) => exists|marks: Result<FileMarks, Error>| #[trigger]
                file_marked(disk, input, marks) && match marks {
                    Ok(m) => file_source(input, parent, m, r),
                    Err(e) => r == Err::<Seq<(SourceKind, Seq<char>)>, Error>(e),
                },
            Ok(NodeKind::Directory) => exists|
                own: Result<Seq<(SourceKind, Seq<char>)>, Error>,
            | #[trigger]
                own_sources(disk, s, input, false, own) && if own == Ok::<
                    Seq<(SourceKind, Seq<char>)>,
                    Error,
                >(Seq::empty()) {
                    sources_below(disk, s, input, WALK_DEPTH, r)
                } else {
                    r == own
                },
            Ok(_) => r matches Err(e) && says(e, "not a file or directory: "@ + input),
            Err(e) => r == Err::<Seq<(SourceKind, Seq<char>)>, Error>(e),
        }
}

/// The sources of an input. `parent` is the folder that it stands in.
pub fn discover_sources<
    N: Fn(&str) -> Result<NodeKind, Error>,
    E: Fn(&str) -> Result<Vec<Entry>, Error>,
    I: Fn(Fact, &str) -> Result<bool, Error>,
>(disk: &Disk<N, E, I>, s: Scan<'_>, input: &str, parent: &str) -> (r:
    Result<Vec<IngestSource>, Error>)
    requires
        answers(*disk),
    ensures
        sources_at(*disk, s, input@, parent@, sources_view(r)),
{
    let node = (disk.node)(input);
    assert(node_said(disk.node, input@, node));
    match node {
        Ok(NodeKind::File) => {
            let marks = match mark_file(disk, input) {
                Ok(marks) => marks,
                Err(e) => {
                    return Err(e);
                },
            };
            match discover_file(input, parent, marks) {
                Ok(source) => {
                    let mut out: Vec<IngestSource> = Vec::new();
                    out.push(source);
                    assert(sources_view(Ok(out))->Ok_0 =~= seq![source_view(source)]);
                    Ok(out)
                },
                Err(e) => Err(e),
            }
        },
        Ok(NodeKind::Directory) => {
            let own = find_own_sources(disk, s, input, false);
            let none = match &own {
                Ok(found) => {
                    assert(sources_view(own)->Ok_0.len() == found@.len());
                    found.len() == 0
                },
                Err(_) => false,
            };
            proof {
                if none {
                    assert(sources_view(own)->Ok_0 =~= Seq::empty());
                }
            }
            if none {
                walk_sources(disk, s, input, WALK_DEPTH)
            } else {
                own
            }
        },
        Ok(_) => Err(no_node_error(input)),
        Err(e) => Err(e),
    }
}

/// A folder `ChatExport_*` with `result.json` is Telegram and nothing else,
/// whatever else stands in it: as an input, and inside a dump.
pub proof fn law_chat_export_is_never_grok<
    N: Fn(&str) -> Result<NodeKind, Error>,
    E: Fn(&str) -> Result<Vec<Entry>, Error>,
    I: Fn(Fact, &str) -> Result<bool, Error>,
>(
    disk: Disk<N, E, I>,
    s: Scan<'_>,
    dir: Seq<char>,
    nested: bool,
    found: Seq<(SourceKind, Seq<char>)>,
    i: int,
)
    requires
        chat_export(dir, true),
        forall|h: Result<bool, Error>| #[trigger]
            told(disk.is, Fact::File, joined(dir, RESULT_FILE_NAME@), h) ==> h == Ok::<bool, Error>(
                true,
            ),
        own_sources(disk, s, dir, nested, Ok(found)),
        0 <= i < found.len(),
    ensures
        found[i] == (SourceKind::Telegram, joined(dir, RESULT_FILE_NAME@)),
{
    let asked = seq![Probe::Telegram];
    assert(dir_probes(dir, true) == asked);
    assert(nested_probes(dir, true) == asked);
    assert(first_found(disk, s, dir, asked, nested, Ok(found)));
    assert(asked.drop_first() =~= Seq::empty());
    let r = choose|r: Result<Seq<Seq<char>>, Error>| #[trigger]
        probed(disk, s, dir, asked[0], nested, r) && match r {
            Ok(v) => if v.len() == 0 {
                first_found(disk, s, dir, asked.drop_first(), nested, Ok(found))
            } else {
                Ok::<Seq<(SourceKind, Seq<char>)>, Error>(found) == Ok::<
                    Seq<(SourceKind, Seq<char>)>,
                    Error,
                >(made(asked[0], v))
            },
            Err(e) => Ok::<Seq<(SourceKind, Seq<char>)>, Error>(found) == Err::<
                Seq<(SourceKind, Seq<char>)>,
                Error,
            >(e),
        };
    assert(telegram_in(disk, dir, r));
}

} // verus!
