//! The Markdown files of a tree of folders. What a folder holds is asked of
//! the caller, one folder at a time.
use vstd::prelude::*;

use crate::cards::has_extension;
use crate::config::skips;
use crate::discover::{chained, entries_said, entry_views, paths_view, Entry};
use crate::listing::WALK_LEVELS;
use crate::paths::{opt_str, sort_paths, sorted_paths};
use crate::scan::{is_markdown_file, markdown_step, walk_markdown_step, NodeKind, WalkStep};
use crate::text::views;
use crate::walk::Scan;
use crate::Error;

verus! {

/// What the walk does with an entry.
pub open spec fn note_step(s: Scan<'_>, e: (Seq<char>, NodeKind)) -> WalkStep {
    markdown_step(e.0, e.1, s.home@, *s.config, opt_str(s.xdg))
}

/// The entries that take the step `step`, in order.
pub open spec fn stepping(s: Scan<'_>, all: Seq<(Seq<char>, NodeKind)>, step: WalkStep) -> Seq<
    Seq<char>,
>
    decreases all.len(),
{
    if all.len() == 0 {
        Seq::empty()
    } else {
        let head = stepping(s, all.drop_last(), step);
        if note_step(s, all.last()) == step {
            head.push(all.last().0)
        } else {
            head
        }
    }
}

/// The Markdown files among entries, and the folders to walk.
fn parted(s: Scan<'_>, all: &Vec<Entry>) -> (r: (Vec<String>, Vec<String>))
    ensures
        views(r.0@) == stepping(s, entry_views(all@), WalkStep::Keep),
        views(r.1@) == stepping(s, entry_views(all@), WalkStep::Descend),
{
    let ghost seen = entry_views(all@);
    let mut files: Vec<String> = Vec::new();
    let mut dirs: Vec<String> = Vec::new();
    let mut i: usize = 0;
    proof {
        assert(seen.take(0) =~= Seq::empty());
        assert(views(files@) =~= Seq::empty());
        assert(views(dirs@) =~= Seq::empty());
    }
    while i < all.len()
        invariant
            i <= all@.len(),
            seen == entry_views(all@),
            views(files@) == stepping(s, seen.take(i as int), WalkStep::Keep),
            views(dirs@) == stepping(s, seen.take(i as int), WalkStep::Descend),
        decreases all.len() - i,
    {
        let e = &all[i];
        let ghost (a, b) = (views(files@), views(dirs@));
        proof {
            assert(seen.take(i + 1).drop_last() =~= seen.take(i as int));
            assert(seen.take(i + 1).last() == seen[i as int]);
        }
        match walk_markdown_step(&e.path, e.kind, s.home, s.config, s.xdg) {
            WalkStep::Keep => {
                files.push(e.path.clone());
                assert(views(files@) =~= a.push(e.path@));
            },
            WalkStep::Descend => {
                dirs.push(e.path.clone());
                assert(views(dirs@) =~= b.push(e.path@));
            },
            WalkStep::Skip | WalkStep::Zip => {},
        }
        i = i + 1;
    }
    proof {
        assert(seen.take(seen.len() as int) =~= seen);
    }
    (files, dirs)
}

/// `r` holds the Markdown files below a folder.
pub open spec fn notes_below<E: Fn(&str) -> Result<Vec<Entry>, Error>>(
    entries: E,
    s: Scan<'_>,
    dir: Seq<char>,
    levels: u32,
    r: Result<Seq<Seq<char>>, Error>,
) -> bool
    decreases levels, 2nat, 0nat,
{
    exists|listed: Result<Vec<Entry>, Error>| #[trigger]
        entries_said(entries, dir, listed) && match listed {
            Err(e) => r == Err::<Seq<Seq<char>>, Error>(e),
            Ok(all) => notes_among(entries, s, entry_views(all@), levels, r),
        }
}

/// `r` holds the Markdown files at and below these entries: the files among
/// them, and then those below the folders.
pub open spec fn notes_among<E: Fn(&str) -> Result<Vec<Entry>, Error>>(
    entries: E,
    s: Scan<'_>,
    all: Seq<(Seq<char>, NodeKind)>,
    levels: u32,
    r: Result<Seq<Seq<char>>, Error>,
) -> bool
    decreases levels, 1nat, 0nat,
{
    exists|own: Result<Seq<Seq<char>>, Error>, rest: Result<Seq<Seq<char>>, Error>| #[trigger]
        chained(own, rest, r) && own == Ok::<Seq<Seq<char>>, Error>(
            stepping(s, all, WalkStep::Keep),
        ) && notes_in(entries, s, stepping(s, all, WalkStep::Descend), levels, rest)
}

/// `r` holds the Markdown files below some folders. The last folder is walked
/// first, and the first error stops the walk.
pub open spec fn notes_in<E: Fn(&str) -> Result<Vec<Entry>, Error>>(
    entries: E,
    s: Scan<'_>,
    dirs: Seq<Seq<char>>,
    levels: u32,
    r: Result<Seq<Seq<char>>, Error>,
) -> bool
    decreases levels, 0nat, dirs.len(),
{
    if levels == 0 || dirs.len() == 0 {
        r == Ok::<Seq<Seq<char>>, Error>(Seq::empty())
    } else {
        exists|a: Result<Seq<Seq<char>>, Error>, b: Result<Seq<Seq<char>>, Error>| #[trigger]
            chained(a, b, r) && notes_in(entries, s, dirs.drop_first(), levels, a) && (a is Ok
                ==> notes_below(entries, s, dirs[0], (levels - 1) as u32, b))
    }
}

proof fn lemma_notes_stop<E: Fn(&str) -> Result<Vec<Entry>, Error>>(
    entries: E,
    s: Scan<'_>,
    dirs: Seq<Seq<char>>,
    levels: u32,
    k: int,
    e: Error,
)
    requires
        0 <= k <= dirs.len(),
        levels > 0,
        notes_in(entries, s, dirs.skip(k), levels, Err(e)),
    ensures
        notes_in(entries, s, dirs, levels, Err(e)),
    decreases dirs.len(),
{
    if k == 0 {
        assert(dirs.skip(0) =~= dirs);
    } else {
        assert(dirs.drop_first().skip(k - 1) =~= dirs.skip(k));
        lemma_notes_stop(entries, s, dirs.drop_first(), levels, k - 1, e);
        let r: Result<Seq<Seq<char>>, Error> = Err(e);
        assert(chained(r, r, r));
    }
}

/// The Markdown files below a folder.
fn collect_below<E: Fn(&str) -> Result<Vec<Entry>, Error>>(
    entries: &E,
    s: Scan<'_>,
    dir: &str,
    levels: u32,
) -> (r: Result<Vec<String>, Error>)
    requires
        forall|p: &str| #[trigger] call_requires(*entries, (p,)),
    ensures
        notes_below(*entries, s, dir@, levels, paths_view(r)),
    decreases levels,
{
    let listed = entries(dir);
    assert(entries_said(*entries, dir@, listed));
    let all = match listed {
        Ok(all) => all,
        Err(e) => {
            return Err(e);
        },
    };
    let (mut files, dirs) = parted(s, &all);
    let ghost own: Result<Seq<Seq<char>>, Error> = Ok(views(files@));
    let ghost down = views(dirs@);
    let ghost mut rest: Result<Seq<Seq<char>>, Error> = Ok(Seq::empty());
    proof {
        assert(down.skip(down.len() as int) =~= Seq::empty());
        assert(views(files@) + Seq::<Seq<char>>::empty() =~= views(files@));
    }
    if levels > 0 {
        let mut i: usize = dirs.len();
        while i > 0
            invariant
                i <= dirs@.len(),
                levels > 0,
                down == views(dirs@),
                forall|p: &str| #[trigger] call_requires(*entries, (p,)),
                own is Ok,
                rest is Ok,
                notes_in(*entries, s, down.skip(i as int), levels, rest),
                views(files@) == own->Ok_0 + rest->Ok_0,
                entries_said(*entries, dir@, listed),
                listed == Ok::<Vec<Entry>, Error>(all),
                own == Ok::<Seq<Seq<char>>, Error>(
                    stepping(s, entry_views(all@), WalkStep::Keep),
                ),
                down == stepping(s, entry_views(all@), WalkStep::Descend),
            decreases i,
        {
            i = i - 1;
            let more = collect_below(entries, s, &dirs[i], levels - 1);
            let ghost new = paths_view(more);
            let ghost part = down.skip(i as int);
            proof {
                assert(part.drop_first() =~= down.skip(i + 1));
                assert(part[0] == dirs@[i as int]@);
            }
            match more {
                Ok(mut found) => {
                    let ghost held = views(files@);
                    files.append(&mut found);
                    proof {
                        let next: Result<Seq<Seq<char>>, Error> = Ok(rest->Ok_0 + new->Ok_0);
                        assert(views(files@) =~= held + new->Ok_0);
                        assert(views(files@) =~= own->Ok_0 + (rest->Ok_0 + new->Ok_0));
                        assert(chained(rest, new, next));
                        rest = next;
                    }
                },
                Err(e) => {
                    proof {
                        let r: Result<Seq<Seq<char>>, Error> = Err(e);
                        assert(chained(rest, new, r));
                        assert(notes_in(*entries, s, part, levels, r));
                        lemma_notes_stop(*entries, s, down, levels, i as int, e);
                        assert(chained(own, r, r));
                        assert(notes_among(*entries, s, entry_views(all@), levels, r));
                    }
                    return Err(e);
                },
            }
        }
        proof {
            assert(down.skip(0) =~= down);
        }
    }
    proof {
        assert(chained(own, rest, Ok(views(files@))));
    }
    Ok(files)
}

/// The Markdown files of an input, in path order: the file itself, or those
/// below the folder.
pub fn collect_markdown_files<E: Fn(&str) -> Result<Vec<Entry>, Error>>(
    entries: &E,
    s: Scan<'_>,
    root: &str,
    is_file: bool,
) -> (r: Result<Vec<String>, Error>)
    requires
        forall|p: &str| #[trigger] call_requires(*entries, (p,)),
    ensures
        if is_file {
            paths_view(r) == Ok::<Seq<Seq<char>>, Error>(
                if has_extension(root@, "md"@) {
                    seq![root@]
                } else {
                    Seq::empty()
                },
            )
        } else {
            match r {
                Ok(v) => exists|found: Seq<String>| #[trigger]
                    sorted_paths(found, v@) && notes_below(
                        *entries,
                        s,
                        root@,
                        WALK_LEVELS,
                        Ok(views(found)),
                    ),
                Err(e) => notes_below(*entries, s, root@, WALK_LEVELS, Err(e)),
            }
        },
{
    if is_file {
        let mut out: Vec<String> = Vec::new();
        if is_markdown_file(root) {
            out.push(root.to_owned());
            assert(views(out@) =~= seq![root@]);
        } else {
            assert(views(out@) =~= Seq::empty());
        }
        return Ok(out);
    }
    match collect_below(entries, s, root, WALK_LEVELS) {
        Ok(found) => {
            let v = sort_paths(&found);
            assert(sorted_paths(found@, v@));
            Ok(v)
        },
        Err(e) => Err(e),
    }
}

/// Two questions, the second only where the first is answered with no.
pub open spec fn or_else(
    first: Result<bool, Error>,
    second: Result<bool, Error>,
    r: Result<bool, Error>,
) -> bool {
    r == if first == Ok::<bool, Error>(false) {
        second
    } else {
        first
    }
}

/// `r` tells whether a Markdown file lies below a folder.
pub open spec fn has_note<E: Fn(&str) -> Result<Vec<Entry>, Error>>(
    entries: E,
    s: Scan<'_>,
    dir: Seq<char>,
    levels: u32,
    r: Result<bool, Error>,
) -> bool
    decreases levels, 1nat, 0nat,
{
    exists|listed: Result<Vec<Entry>, Error>| #[trigger]
        entries_said(entries, dir, listed) && match listed {
            Err(e) => r == Err::<bool, Error>(e),
            Ok(all) => if stepping(s, entry_views(all@), WalkStep::Keep).len() > 0 {
                r == Ok::<bool, Error>(true)
            } else {
                note_in(
                    entries,
                    s,
                    stepping(s, entry_views(all@), WalkStep::Descend),
                    levels,
                    r,
                )
            },
        }
}

/// `r` tells whether a Markdown file lies below one of some folders. The last
/// folder is walked first, and the walk stops at the first file or error.
pub open spec fn note_in<E: Fn(&str) -> Result<Vec<Entry>, Error>>(
    entries: E,
    s: Scan<'_>,
    dirs: Seq<Seq<char>>,
    levels: u32,
    r: Result<bool, Error>,
) -> bool
    decreases levels, 0nat, dirs.len(),
{
    if levels == 0 || dirs.len() == 0 {
        r == Ok::<bool, Error>(false)
    } else {
        exists|a: Result<bool, Error>, b: Result<bool, Error>| #[trigger]
            or_else(a, b, r) && note_in(entries, s, dirs.drop_first(), levels, a) && (a == Ok::<
                bool,
                Error,
            >(false) ==> has_note(entries, s, dirs[0], (levels - 1) as u32, b))
    }
}

proof fn lemma_note_stop<E: Fn(&str) -> Result<Vec<Entry>, Error>>(
    entries: E,
    s: Scan<'_>,
    dirs: Seq<Seq<char>>,
    levels: u32,
    k: int,
    r: Result<bool, Error>,
)
    requires
        0 <= k <= dirs.len(),
        levels > 0,
        r != Ok::<bool, Error>(false),
        note_in(entries, s, dirs.skip(k), levels, r),
    ensures
        note_in(entries, s, dirs, levels, r),
    decreases dirs.len(),
{
    if k == 0 {
        assert(dirs.skip(0) =~= dirs);
    } else {
        assert(dirs.drop_first().skip(k - 1) =~= dirs.skip(k));
        lemma_note_stop(entries, s, dirs.drop_first(), levels, k - 1, r);
        assert(or_else(r, r, r));
    }
}

fn found_below<E: Fn(&str) -> Result<Vec<Entry>, Error>>(
    entries: &E,
    s: Scan<'_>,
    dir: &str,
    levels: u32,
) -> (r: Result<bool, Error>)
    requires
        forall|p: &str| #[trigger] call_requires(*entries, (p,)),
    ensures
        has_note(*entries, s, dir@, levels, r),
    decreases levels,
{
    let listed = entries(dir);
    assert(entries_said(*entries, dir@, listed));
    let all = match listed {
        Ok(all) => all,
        Err(e) => {
            return Err(e);
        },
    };
    let (files, dirs) = parted(s, &all);
    let ghost down = views(dirs@);
    proof {
        assert(views(files@).len() == files@.len());
        assert(down.skip(down.len() as int) =~= Seq::empty());
    }
    if files.len() > 0 {
        return Ok(true);
    }
    if levels == 0 {
        return Ok(false);
    }
    let mut i: usize = dirs.len();
    while i > 0
        invariant
            i <= dirs@.len(),
            levels > 0,
            down == views(dirs@),
            forall|p: &str| #[trigger] call_requires(*entries, (p,)),
            note_in(*entries, s, down.skip(i as int), levels, Ok(false)),
            entries_said(*entries, dir@, listed),
            listed == Ok::<Vec<Entry>, Error>(all),
            stepping(s, entry_views(all@), WalkStep::Keep).len() == 0,
            down == stepping(s, entry_views(all@), WalkStep::Descend),
        decreases i,
    {
        i = i - 1;
        let found = found_below(entries, s, &dirs[i], levels - 1);
        let ghost part = down.skip(i as int);
        proof {
            assert(part.drop_first() =~= down.skip(i + 1));
            assert(part[0] == dirs@[i as int]@);
            assert(or_else(Ok(false), found, found));
            assert(note_in(*entries, s, part, levels, found));
        }
        match found {
            Ok(false) => {},
            Ok(true) => {
                proof {
                    lemma_note_stop(*entries, s, down, levels, i as int, Ok(true));
                }
                return Ok(true);
            },
            Err(e) => {
                proof {
                    lemma_note_stop(*entries, s, down, levels, i as int, Err(e));
                }
                return Err(e);
            },
        }
    }
    proof {
        assert(down.skip(0) =~= down);
    }
    Ok(false)
}

/// Whether a Markdown file lies below a folder. The walk stops at the first.
pub fn dir_has_markdown<E: Fn(&str) -> Result<Vec<Entry>, Error>>(
    entries: &E,
    s: Scan<'_>,
    dir: &str,
) -> (r: Result<bool, Error>)
    requires
        forall|p: &str| #[trigger] call_requires(*entries, (p,)),
    ensures
        has_note(*entries, s, dir@, WALK_LEVELS, r),
{
    found_below(entries, s, dir, WALK_LEVELS)
}

/// A folder is said to hold the same each time.
pub open spec fn steady<E: Fn(&str) -> Result<Vec<Entry>, Error>>(entries: E) -> bool {
    forall|dir: Seq<char>, a: Result<Vec<Entry>, Error>, b: Result<Vec<Entry>, Error>| #[trigger]
        entries_said(entries, dir, a) && #[trigger] entries_said(entries, dir, b) ==> a == b
}

/// On a disk that stands still and can be read, a folder has Markdown if and
/// only if Markdown files are collected from it.
pub proof fn law_markdown_is_there_to_collect<E: Fn(&str) -> Result<Vec<Entry>, Error>>(
    entries: E,
    s: Scan<'_>,
    dir: Seq<char>,
    levels: u32,
    found: Seq<Seq<char>>,
    r: Result<bool, Error>,
)
    requires
        steady(entries),
        notes_below(entries, s, dir, levels, Ok(found)),
        has_note(entries, s, dir, levels, r),
    ensures
        r == Ok::<bool, Error>(found.len() > 0),
    decreases levels, 1nat, 0nat,
{
    let goal: Result<Seq<Seq<char>>, Error> = Ok(found);
    let a = choose|listed: Result<Vec<Entry>, Error>| #[trigger]
        entries_said(entries, dir, listed) && match listed {
            Err(e) => goal == Err::<Seq<Seq<char>>, Error>(e),
            Ok(all) => notes_among(entries, s, entry_views(all@), levels, goal),
        };
    let all = a->Ok_0;
    let seen = entry_views(all@);
    let dirs = stepping(s, seen, WalkStep::Descend);
    let (own, rest) = choose|
        own: Result<Seq<Seq<char>>, Error>,
        rest: Result<Seq<Seq<char>>, Error>,
    | #[trigger]
        chained(own, rest, goal) && own == Ok::<Seq<Seq<char>>, Error>(
            stepping(s, seen, WalkStep::Keep),
        ) && notes_in(entries, s, dirs, levels, rest);
    if own->Ok_0.len() == 0 {
        assert(note_in(entries, s, dirs, levels, r));
        lemma_markdown_in(entries, s, dirs, levels, rest->Ok_0, r);
    }
}

proof fn lemma_markdown_in<E: Fn(&str) -> Result<Vec<Entry>, Error>>(
    entries: E,
    s: Scan<'_>,
    dirs: Seq<Seq<char>>,
    levels: u32,
    found: Seq<Seq<char>>,
    r: Result<bool, Error>,
)
    requires
        steady(entries),
        notes_in(entries, s, dirs, levels, Ok(found)),
        note_in(entries, s, dirs, levels, r),
    ensures
        r == Ok::<bool, Error>(found.len() > 0),
    decreases levels, 0nat, dirs.len(),
{
    if levels > 0 && dirs.len() > 0 {
        let goal: Result<Seq<Seq<char>>, Error> = Ok(found);
        let (a, b) = choose|
            a: Result<Seq<Seq<char>>, Error>,
            b: Result<Seq<Seq<char>>, Error>,
        | #[trigger]
            chained(a, b, goal) && notes_in(entries, s, dirs.drop_first(), levels, a) && (a is Ok
                ==> notes_below(entries, s, dirs[0], (levels - 1) as u32, b));
        let (x, y) = choose|x: Result<bool, Error>, y: Result<bool, Error>| #[trigger]
            or_else(x, y, r) && note_in(entries, s, dirs.drop_first(), levels, x) && (x == Ok::<
                bool,
                Error,
            >(false) ==> has_note(entries, s, dirs[0], (levels - 1) as u32, y));
        lemma_markdown_in(entries, s, dirs.drop_first(), levels, a->Ok_0, x);
        if x == Ok::<bool, Error>(false) {
            law_markdown_is_there_to_collect(
                entries,
                s,
                dirs[0],
                (levels - 1) as u32,
                b->Ok_0,
                y,
            );
        }
    }
}

proof fn lemma_stepping(
    s: Scan<'_>,
    all: Seq<(Seq<char>, NodeKind)>,
    step: WalkStep,
    k: int,
    p: Seq<char>,
)
    ensures
        0 <= k < all.len() && note_step(s, all[k]) == step ==> stepping(s, all, step).contains(
            all[k].0,
        ),
        stepping(s, all, step).contains(p) ==> exists|j: int|
            0 <= j < all.len() && (#[trigger] all[j]).0 == p && note_step(s, all[j]) == step,
    decreases all.len(),
{
    if all.len() > 0 {
        let init = all.drop_last();
        let head = stepping(s, init, step);
        let now = stepping(s, all, step);
        lemma_stepping(s, init, step, k, p);
        if 0 <= k < all.len() && note_step(s, all[k]) == step {
            if k < init.len() {
                assert(init[k] == all[k]);
                let j = choose|j: int| 0 <= j < head.len() && head[j] == all[k].0;
                assert(now[j] == all[k].0);
            } else {
                assert(now[head.len() as int] == all[k].0);
            }
        }
        if now.contains(p) {
            let i = choose|i: int| 0 <= i < now.len() && now[i] == p;
            if i < head.len() {
                assert(head[i] == p);
                let j = choose|j: int|
                    0 <= j < init.len() && (#[trigger] init[j]).0 == p && note_step(s, init[j])
                        == step;
                assert(all[j].0 == p);
            } else {
                assert(all[all.len() - 1].0 == p);
            }
        }
    }
}

/// What the folders of a walk hold is all among what the walk collects.
proof fn lemma_every_folder<E: Fn(&str) -> Result<Vec<Entry>, Error>>(
    entries: E,
    s: Scan<'_>,
    dirs: Seq<Seq<char>>,
    levels: u32,
    found: Seq<Seq<char>>,
    k: int,
)
    requires
        levels > 0,
        0 <= k < dirs.len(),
        notes_in(entries, s, dirs, levels, Ok(found)),
    ensures
        exists|sub: Seq<Seq<char>>| #[trigger]
            notes_below(entries, s, dirs[k], (levels - 1) as u32, Ok(sub)) && holds_all(found, sub),
    decreases dirs.len(),
{
    let (a, b) = choose|a: Result<Seq<Seq<char>>, Error>, b: Result<Seq<Seq<char>>, Error>|
     #[trigger]
        chained(a, b, Ok(found)) && notes_in(entries, s, dirs.drop_first(), levels, a) && (a is Ok
            ==> notes_below(entries, s, dirs[0], (levels - 1) as u32, b));
    let x = a->Ok_0;
    let y = b->Ok_0;
    if k == 0 {
        assert forall|p: Seq<char>| #[trigger] y.contains(p) implies found.contains(p) by {
            let j = choose|j: int| 0 <= j < y.len() && y[j] == p;
            assert(found[x.len() + j] == p);
        }
        assert(holds_all(found, y));
    } else {
        assert(dirs.drop_first()[k - 1] == dirs[k]);
        lemma_every_folder(entries, s, dirs.drop_first(), levels, x, k - 1);
        let sub = choose|sub: Seq<Seq<char>>| #[trigger]
            notes_below(entries, s, dirs[k], (levels - 1) as u32, Ok(sub)) && holds_all(x, sub);
        assert forall|p: Seq<char>| #[trigger] sub.contains(p) implies found.contains(p) by {
            assert(x.contains(p));
            let j = choose|j: int| 0 <= j < x.len() && x[j] == p;
            assert(found[j] == p);
        }
        assert(holds_all(found, sub));
    }
}

/// Every path of `sub` is one of `all`.
pub open spec fn holds_all(all: Seq<Seq<char>>, sub: Seq<Seq<char>>) -> bool {
    forall|p: Seq<char>| #[trigger] sub.contains(p) ==> all.contains(p)
}

/// A walk for notes collects every note of a folder, and all that the walk of
/// each folder in it collects.
pub proof fn law_every_note_is_collected<E: Fn(&str) -> Result<Vec<Entry>, Error>>(
    entries: E,
    s: Scan<'_>,
    dir: Seq<char>,
    levels: u32,
    listed: Vec<Entry>,
    found: Seq<Seq<char>>,
    k: int,
)
    requires
        steady(entries),
        entries_said(entries, dir, Ok(listed)),
        notes_below(entries, s, dir, levels, Ok(found)),
        0 <= k < listed@.len(),
    ensures
        note_step(s, (listed@[k].path@, listed@[k].kind)) == WalkStep::Keep ==> found.contains(
            listed@[k].path@,
        ),
        note_step(s, (listed@[k].path@, listed@[k].kind)) == WalkStep::Descend && levels > 0
            ==> exists|sub: Seq<Seq<char>>| #[trigger]
            notes_below(entries, s, listed@[k].path@, (levels - 1) as u32, Ok(sub)) && holds_all(
                found,
                sub,
            ),
{
    let all = entry_views(listed@);
    assert(notes_among(entries, s, all, levels, Ok(found)));
    let (own, rest) = choose|own: Result<Seq<Seq<char>>, Error>, rest: Result<Seq<Seq<char>>, Error>|
     #[trigger]
        chained(own, rest, Ok(found)) && own == Ok::<Seq<Seq<char>>, Error>(
            stepping(s, all, WalkStep::Keep),
        ) && notes_in(entries, s, stepping(s, all, WalkStep::Descend), levels, rest);
    let x = own->Ok_0;
    let y = rest->Ok_0;
    let p = listed@[k].path@;
    assert(all[k] == (p, listed@[k].kind));
    if note_step(s, all[k]) == WalkStep::Keep {
        lemma_stepping(s, all, WalkStep::Keep, k, p);
        let j = choose|j: int| 0 <= j < x.len() && x[j] == p;
        assert(found[j] == p);
    }
    if note_step(s, all[k]) == WalkStep::Descend && levels > 0 {
        let dirs = stepping(s, all, WalkStep::Descend);
        lemma_stepping(s, all, WalkStep::Descend, k, p);
        let m = choose|m: int| 0 <= m < dirs.len() && dirs[m] == p;
        lemma_every_folder(entries, s, dirs, levels, y, m);
        let sub = choose|sub: Seq<Seq<char>>| #[trigger]
            notes_below(entries, s, p, (levels - 1) as u32, Ok(sub)) && holds_all(y, sub);
        assert forall|q: Seq<char>| #[trigger] sub.contains(q) implies found.contains(q) by {
            assert(y.contains(q));
            let j = choose|j: int| 0 <= j < y.len() && y[j] == q;
            assert(found[x.len() + j] == q);
        }
        assert(holds_all(found, sub));
    }
}

/// Nothing but Markdown files outside the skipped folders is collected.
pub proof fn law_only_notes_are_collected<E: Fn(&str) -> Result<Vec<Entry>, Error>>(
    entries: E,
    s: Scan<'_>,
    dir: Seq<char>,
    levels: u32,
    found: Seq<Seq<char>>,
    p: Seq<char>,
)
    requires
        notes_below(entries, s, dir, levels, Ok(found)),
        found.contains(p),
    ensures
        has_extension(p, "md"@),
        !skips(*s.config, p, s.home@, opt_str(s.xdg)),
    decreases levels, 1nat, 0nat,
{
    let listed = choose|listed: Result<Vec<Entry>, Error>| #[trigger]
        entries_said(entries, dir, listed) && match listed {
            Err(e) => Ok::<Seq<Seq<char>>, Error>(found) == Err::<Seq<Seq<char>>, Error>(e),
            Ok(all) => notes_among(entries, s, entry_views(all@), levels, Ok(found)),
        };
    let all = entry_views(listed->Ok_0@);
    let (own, rest) = choose|own: Result<Seq<Seq<char>>, Error>, rest: Result<Seq<Seq<char>>, Error>|
     #[trigger]
        chained(own, rest, Ok(found)) && own == Ok::<Seq<Seq<char>>, Error>(
            stepping(s, all, WalkStep::Keep),
        ) && notes_in(entries, s, stepping(s, all, WalkStep::Descend), levels, rest);
    let x = own->Ok_0;
    let y = rest->Ok_0;
    let i = choose|i: int| 0 <= i < found.len() && found[i] == p;
    if i < x.len() {
        assert(x[i] == p);
        lemma_stepping(s, all, WalkStep::Keep, 0, p);
    } else {
        assert(y[i - x.len()] == p);
        lemma_only_notes_in(entries, s, stepping(s, all, WalkStep::Descend), levels, y, p);
    }
}

proof fn lemma_only_notes_in<E: Fn(&str) -> Result<Vec<Entry>, Error>>(
    entries: E,
    s: Scan<'_>,
    dirs: Seq<Seq<char>>,
    levels: u32,
    found: Seq<Seq<char>>,
    p: Seq<char>,
)
    requires
        notes_in(entries, s, dirs, levels, Ok(found)),
        found.contains(p),
    ensures
        has_extension(p, "md"@),
        !skips(*s.config, p, s.home@, opt_str(s.xdg)),
    decreases levels, 0nat, dirs.len(),
{
    if levels > 0 && dirs.len() > 0 {
        let (a, b) = choose|a: Result<Seq<Seq<char>>, Error>, b: Result<Seq<Seq<char>>, Error>|
         #[trigger]
            chained(a, b, Ok(found)) && notes_in(entries, s, dirs.drop_first(), levels, a) && (
            a is Ok ==> notes_below(entries, s, dirs[0], (levels - 1) as u32, b));
        let x = a->Ok_0;
        let y = b->Ok_0;
        let i = choose|i: int| 0 <= i < found.len() && found[i] == p;
        if i < x.len() {
            assert(x[i] == p);
            lemma_only_notes_in(entries, s, dirs.drop_first(), levels, x, p);
        } else {
            assert(y[i - x.len()] == p);
            law_only_notes_are_collected(entries, s, dirs[0], (levels - 1) as u32, y, p);
        }
    }
}

} // verus!
