//! The files of an export: which names in a folder, or in a tree of folders,
//! are read.
use vstd::prelude::*;

use crate::cards::{has_extension, name_or_empty, name_or_empty_of, path_has_extension};
use crate::characters::{character_file, is_toml_file};
use crate::discover::{chained, entries_said, entry_views, paths_view, Entry};
use crate::names::{
    conversations_json, image_name, is_conversations_json_name, is_facebook_image_name,
    is_twitter_payload_js_name, payload_js,
};
use crate::paths::{
    joined, law_joined_name, name_extension, plain_name, sort_paths, sorted_paths,
};
use crate::scan::{deduped, sorted_once, NodeKind, TREE_DEPTH};
use crate::text::{same_ascii, views};
use crate::Error;

verus! {

/// The files that a reader wants.
#[derive(Clone, Copy, Debug, PartialEq, Eq, Structural)]
pub enum Wants {
    /// The conversations of a ChatGPT export.
    Conversations,
    /// The payload of an X archive.
    XPayload,
    /// Characters.
    Characters,
    /// JSON.
    Json,
    /// Images.
    Images,
}

/// A path that is wanted, by its name.
pub open spec fn wanted(w: Wants, path: Seq<char>) -> bool {
    match w {
        Wants::Conversations => conversations_json(name_or_empty(path)),
        Wants::XPayload => payload_js(name_or_empty(path)),
        Wants::Characters => character_file(path),
        Wants::Json => has_extension(path, "json"@),
        Wants::Images => image_name(name_or_empty(path)),
    }
}

fn is_wanted(w: Wants, path: &str) -> (r: bool)
    ensures
        r == wanted(w, path@),
{
    match w {
        Wants::Conversations => is_conversations_json_name(&name_or_empty_of(path)),
        Wants::XPayload => is_twitter_payload_js_name(&name_or_empty_of(path)),
        Wants::Characters => is_toml_file(path),
        Wants::Json => path_has_extension(path, "json"),
        Wants::Images => is_facebook_image_name(&name_or_empty_of(path)),
    }
}

/// The wanted files among entries, in order. Links and folders are none.
pub open spec fn kept(w: Wants, all: Seq<(Seq<char>, NodeKind)>) -> Seq<Seq<char>>
    decreases all.len(),
{
    if all.len() == 0 {
        Seq::empty()
    } else {
        let head = kept(w, all.drop_last());
        let (path, kind) = all.last();
        if kind == NodeKind::File && wanted(w, path) {
            head.push(path)
        } else {
            head
        }
    }
}

/// The wanted files in a folder, in path order.
pub fn wanted_files(w: Wants, all: &Vec<Entry>) -> (r: Vec<String>)
    ensures
        exists|found: Seq<String>| #[trigger]
            sorted_paths(found, r@) && views(found) == kept(w, entry_views(all@)),
{
    let ghost seen = entry_views(all@);
    let mut out: Vec<String> = Vec::new();
    let mut i: usize = 0;
    proof {
        assert(seen.take(0) =~= Seq::empty());
        assert(views(out@) =~= Seq::empty());
    }
    while i < all.len()
        invariant
            i <= all@.len(),
            seen == entry_views(all@),
            views(out@) == kept(w, seen.take(i as int)),
        decreases all.len() - i,
    {
        proof {
            assert(seen.take(i + 1).drop_last() =~= seen.take(i as int));
            assert(seen.take(i + 1).last() == seen[i as int]);
        }
        if all[i].kind == NodeKind::File && is_wanted(w, &all[i].path) {
            let ghost held = views(out@);
            out.push(all[i].path.clone());
            assert(views(out@) =~= held.push(all@[i as int].path@));
        }
        i = i + 1;
    }
    assert(seen.take(seen.len() as int) =~= seen);
    sort_paths(&out)
}

/// `r` holds the wanted files in a folder and below it, as far down as
/// `depth` levels. Links are not followed.
pub open spec fn files_below<E: Fn(&str) -> Result<Vec<Entry>, Error>>(
    entries: E,
    w: Wants,
    dir: Seq<char>,
    depth: u32,
    r: Result<Seq<Seq<char>>, Error>,
) -> bool
    decreases depth, 2nat, 0nat,
{
    if depth == 0 {
        r == Ok::<Seq<Seq<char>>, Error>(Seq::empty())
    } else {
        exists|all: Result<Vec<Entry>, Error>| #[trigger]
            entries_said(entries, dir, all) && match all {
                Ok(v) => files_among(entries, w, entry_views(v@), depth, r),
                Err(e) => r == Err::<Seq<Seq<char>>, Error>(e),
            }
    }
}

/// `r` holds the wanted files among entries and below them, in order.
pub open spec fn files_among<E: Fn(&str) -> Result<Vec<Entry>, Error>>(
    entries: E,
    w: Wants,
    all: Seq<(Seq<char>, NodeKind)>,
    depth: u32,
    r: Result<Seq<Seq<char>>, Error>,
) -> bool
    decreases depth, 1nat, all.len(),
{
    if all.len() == 0 {
        r == Ok::<Seq<Seq<char>>, Error>(Seq::empty())
    } else {
        exists|a: Result<Seq<Seq<char>>, Error>, b: Result<Seq<Seq<char>>, Error>| #[trigger]
            chained(a, b, r) && files_among(entries, w, all.drop_last(), depth, a) && (a is Ok
                ==> files_of_entry(entries, w, all.last(), depth, b))
    }
}

/// `r` holds the wanted files of one entry: itself, or those below it.
pub open spec fn files_of_entry<E: Fn(&str) -> Result<Vec<Entry>, Error>>(
    entries: E,
    w: Wants,
    entry: (Seq<char>, NodeKind),
    depth: u32,
    r: Result<Seq<Seq<char>>, Error>,
) -> bool
    decreases depth, 0nat, 0nat,
{
    match entry.1 {
        NodeKind::Directory => if depth == 0 {
            r == Ok::<Seq<Seq<char>>, Error>(Seq::empty())
        } else {
            files_below(entries, w, entry.0, (depth - 1) as u32, r)
        },
        NodeKind::File => r == Ok::<Seq<Seq<char>>, Error>(
            if wanted(w, entry.0) {
                seq![entry.0]
            } else {
                Seq::empty()
            },
        ),
        _ => r == Ok::<Seq<Seq<char>>, Error>(Seq::empty()),
    }
}

proof fn lemma_files_stop<E: Fn(&str) -> Result<Vec<Entry>, Error>>(
    entries: E,
    w: Wants,
    all: Seq<(Seq<char>, NodeKind)>,
    k: int,
    depth: u32,
    e: Error,
)
    requires
        0 <= k <= all.len(),
        files_among(entries, w, all.take(k), depth, Err(e)),
    ensures
        files_among(entries, w, all, depth, Err(e)),
    decreases all.len(),
{
    if k == all.len() {
        assert(all.take(k) =~= all);
    } else {
        assert(all.drop_last().take(k) =~= all.take(k));
        lemma_files_stop(entries, w, all.drop_last(), k, depth, e);
        let r: Result<Seq<Seq<char>>, Error> = Err(e);
        assert(chained(r, r, r));
    }
}

fn collect_of_entry<E: Fn(&str) -> Result<Vec<Entry>, Error>>(
    entries: &E,
    w: Wants,
    entry: &Entry,
    depth: u32,
) -> (r: Result<Vec<String>, Error>)
    requires
        forall|p: &str| #[trigger] call_requires(entries, (p,)),
    ensures
        files_of_entry(*entries, w, (entry.path@, entry.kind), depth, paths_view(r)),
    decreases depth, 0nat,
{
    let mut out: Vec<String> = Vec::new();
    assert(views(out@) =~= Seq::empty());
    match entry.kind {
        NodeKind::Directory => {
            if depth > 0 {
                return collect_files(entries, w, &entry.path, depth - 1);
            }
        },
        NodeKind::File => {
            if is_wanted(w, &entry.path) {
                out.push(entry.path.clone());
                assert(views(out@) =~= seq![entry.path@]);
            }
        },
        _ => {},
    }
    Ok(out)
}

fn collect_among<E: Fn(&str) -> Result<Vec<Entry>, Error>>(
    entries: &E,
    w: Wants,
    all: &Vec<Entry>,
    depth: u32,
) -> (r: Result<Vec<String>, Error>)
    requires
        forall|p: &str| #[trigger] call_requires(entries, (p,)),
    ensures
        files_among(*entries, w, entry_views(all@), depth, paths_view(r)),
    decreases depth, 1nat,
{
    let ghost seen = entry_views(all@);
    let mut out: Vec<String> = Vec::new();
    let mut i: usize = 0;
    proof {
        assert(views(out@) =~= Seq::empty());
        assert(seen.take(0) =~= Seq::empty());
    }
    while i < all.len()
        invariant
            i <= all@.len(),
            seen == entry_views(all@),
            forall|p: &str| #[trigger] call_requires(entries, (p,)),
            files_among(*entries, w, seen.take(i as int), depth, Ok(views(out@))),
        decreases all.len() - i,
    {
        let ghost held: Result<Seq<Seq<char>>, Error> = Ok(views(out@));
        let more = collect_of_entry(entries, w, &all[i], depth);
        let ghost new = paths_view(more);
        proof {
            assert(seen.take(i + 1).drop_last() =~= seen.take(i as int));
            assert(seen.take(i + 1).last() == seen[i as int]);
        }
        match more {
            Ok(mut found) => {
                out.append(&mut found);
                proof {
                    assert(views(out@) =~= held->Ok_0 + new->Ok_0);
                    assert(chained(held, new, Ok(views(out@))));
                }
            },
            Err(e) => {
                proof {
                    let r: Result<Seq<Seq<char>>, Error> = Err(e);
                    assert(chained(held, new, r));
                    assert(files_among(*entries, w, seen.take(i + 1), depth, r));
                    lemma_files_stop(*entries, w, seen, i + 1, depth, e);
                }
                return Err(e);
            },
        }
        i = i + 1;
    }
    assert(seen.take(seen.len() as int) =~= seen);
    Ok(out)
}

/// The wanted files in a folder and below it, in the order of the disk.
pub fn collect_files<E: Fn(&str) -> Result<Vec<Entry>, Error>>(
    entries: &E,
    w: Wants,
    dir: &str,
    depth: u32,
) -> (r: Result<Vec<String>, Error>)
    requires
        forall|p: &str| #[trigger] call_requires(entries, (p,)),
    ensures
        files_below(*entries, w, dir@, depth, paths_view(r)),
    decreases depth, 2nat,
{
    if depth == 0 {
        let none: Vec<String> = Vec::new();
        assert(views(none@) =~= Seq::empty());
        return Ok(none);
    }
    let listed = entries(dir);
    assert(entries_said(*entries, dir@, listed));
    match listed {
        Ok(all) => collect_among(entries, w, &all, depth),
        Err(e) => Err(e),
    }
}

/// `r` holds the wanted files below some folders, one after the other.
pub open spec fn files_in_trees<E: Fn(&str) -> Result<Vec<Entry>, Error>>(
    entries: E,
    w: Wants,
    roots: Seq<Seq<char>>,
    r: Result<Seq<Seq<char>>, Error>,
) -> bool
    decreases roots.len(),
{
    if roots.len() == 0 {
        r == Ok::<Seq<Seq<char>>, Error>(Seq::empty())
    } else {
        exists|a: Result<Seq<Seq<char>>, Error>, b: Result<Seq<Seq<char>>, Error>| #[trigger]
            chained(a, b, r) && files_in_trees(entries, w, roots.drop_last(), a) && (a is Ok
                ==> files_below(entries, w, roots.last(), TREE_DEPTH, b))
    }
}

proof fn lemma_trees_stop<E: Fn(&str) -> Result<Vec<Entry>, Error>>(
    entries: E,
    w: Wants,
    roots: Seq<Seq<char>>,
    k: int,
    e: Error,
)
    requires
        0 <= k <= roots.len(),
        files_in_trees(entries, w, roots.take(k), Err(e)),
    ensures
        files_in_trees(entries, w, roots, Err(e)),
    decreases roots.len(),
{
    if k == roots.len() {
        assert(roots.take(k) =~= roots);
    } else {
        assert(roots.drop_last().take(k) =~= roots.take(k));
        lemma_trees_stop(entries, w, roots.drop_last(), k, e);
        let r: Result<Seq<Seq<char>>, Error> = Err(e);
        assert(chained(r, r, r));
    }
}

/// The wanted files below some folders: in path order, each once.
pub fn files_in_tree<E: Fn(&str) -> Result<Vec<Entry>, Error>>(
    entries: &E,
    w: Wants,
    roots: &Vec<String>,
) -> (r: Result<Vec<String>, Error>)
    requires
        forall|p: &str| #[trigger] call_requires(entries, (p,)),
    ensures
        match r {
            Ok(v) => exists|found: Seq<String>, p: Seq<String>| #[trigger]
                sorted_paths(found, p) && files_in_trees(
                    *entries,
                    w,
                    views(roots@),
                    Ok(views(found)),
                ) && views(v@) == deduped(views(p)),
            Err(e) => files_in_trees(*entries, w, views(roots@), Err(e)),
        },
{
    let ghost all = views(roots@);
    let mut out: Vec<String> = Vec::new();
    let mut i: usize = 0;
    proof {
        assert(views(out@) =~= Seq::empty());
        assert(all.take(0) =~= Seq::empty());
    }
    while i < roots.len()
        invariant
            i <= roots@.len(),
            all == views(roots@),
            forall|p: &str| #[trigger] call_requires(entries, (p,)),
            files_in_trees(*entries, w, all.take(i as int), Ok(views(out@))),
        decreases roots.len() - i,
    {
        let ghost held: Result<Seq<Seq<char>>, Error> = Ok(views(out@));
        let more = collect_files(entries, w, &roots[i], TREE_DEPTH);
        let ghost new = paths_view(more);
        proof {
            assert(all.take(i + 1).drop_last() =~= all.take(i as int));
            assert(all.take(i + 1).last() == all[i as int]);
        }
        match more {
            Ok(mut found) => {
                out.append(&mut found);
                proof {
                    assert(views(out@) =~= held->Ok_0 + new->Ok_0);
                    assert(chained(held, new, Ok(views(out@))));
                }
            },
            Err(e) => {
                proof {
                    let r: Result<Seq<Seq<char>>, Error> = Err(e);
                    assert(chained(held, new, r));
                    assert(files_in_trees(*entries, w, all.take(i + 1), r));
                    lemma_trees_stop(*entries, w, all, i + 1, e);
                }
                return Err(e);
            },
        }
        i = i + 1;
    }
    assert(all.take(all.len() as int) =~= all);
    Ok(sorted_once(&out))
}

/// The files that are kept of a listing: those that are wanted, all of them
/// and in order. Folders and links are none.
pub proof fn law_wanted_files(
    w: Wants,
    all: Seq<(Seq<char>, NodeKind)>,
    k: int,
    path: Seq<char>,
)
    ensures
        0 <= k < all.len() && all[k].1 == NodeKind::File && wanted(w, all[k].0) ==> kept(w, all).contains(
            all[k].0,
        ),
        kept(w, all).contains(path) ==> wanted(w, path) && all.contains((path, NodeKind::File)),
    decreases all.len(),
{
    if all.len() > 0 {
        let n = all.len() - 1;
        let init = all.drop_last();
        let head = kept(w, init);
        let now = kept(w, all);
        law_wanted_files(w, init, k, path);
        if 0 <= k < all.len() && all[k].1 == NodeKind::File && wanted(w, all[k].0) {
            if k < n {
                assert(init[k] == all[k]);
                let j = choose|j: int| 0 <= j < head.len() && head[j] == all[k].0;
                assert(now[j] == all[k].0);
            } else {
                assert(now[head.len() as int] == all[k].0);
            }
        }
        if now.contains(path) {
            let j = choose|j: int| 0 <= j < now.len() && now[j] == path;
            if j < head.len() {
                assert(head[j] == path);
                let m = choose|m: int| 0 <= m < init.len() && init[m] == (path, NodeKind::File);
                assert(all[m] == (path, NodeKind::File));
            } else {
                assert(all[n] == (path, NodeKind::File));
            }
        }
    }
}

/// Which files each import wants, by their names.
pub proof fn law_what_imports_want(dir: Seq<char>, name: Seq<char>)
    requires
        plain_name(name),
    ensures
        wanted(Wants::Json, joined(dir, name)) <==> name_extension(name) is Some && same_ascii(
            name_extension(name)->0,
            "json"@,
        ),
        wanted(Wants::Conversations, joined(dir, name)) <==> conversations_json(name),
        wanted(Wants::XPayload, joined(dir, name)) <==> payload_js(name),
        wanted(Wants::Images, joined(dir, name)) <==> image_name(name),
        wanted(Wants::Characters, joined(dir, name)) <==> name_extension(name) is Some && same_ascii(
            name_extension(name)->0,
            "toml"@,
        ) && !same_ascii(name, "Cargo.toml"@),
{
    law_joined_name(dir, name);
}

} // verus!
