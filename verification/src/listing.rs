//! The list of archives below a directory. What a directory holds is asked of
//! the caller, one directory at a time.
use vstd::prelude::*;

use crate::bench_zstd::{bench_decision, bench_step};
use crate::memex::{list_decision, list_step, EntryKind, ListStep};
use crate::order::{before, law_string_order, sorted_positions};
use crate::paths::{
    components, join_path, joined, keeps, law_joined_components, lemma_split_before, path_key,
    sort_paths, sorted_paths,
};
use crate::text::{split_char, views};

verus! {

/// Levels of directories that a walk goes down. No path on disk is that deep.
pub const WALK_LEVELS: u32 = 4294967295;

/// One directory entry on the walk.
#[derive(Debug)]
pub struct WalkEntry {
    pub name: String,
    pub kind: EntryKind,
    /// A `.majestic` file of the same stem stands beside it.
    pub sibling: bool,
}

/// Which entries a walk lists and which directories it enters.
#[derive(Clone, Copy, Debug, PartialEq, Eq, Structural)]
pub enum Rule {
    /// The archives of the memex directory.
    Memex,
    /// The uncompressed archives that the bench runs on.
    Bench,
}

/// What a walk does with an entry.
pub open spec fn rule_step(
    rule: Rule,
    name: Seq<char>,
    kind: EntryKind,
    sibling: bool,
) -> ListStep {
    match rule {
        Rule::Memex => list_step(name, kind, sibling),
        Rule::Bench => bench_step(name, kind),
    }
}

/// What a walk does with an entry.
fn decide(rule: Rule, name: &str, kind: EntryKind, sibling: bool) -> (r: ListStep)
    ensures
        r == rule_step(rule, name@, kind, sibling),
{
    match rule {
        Rule::Memex => list_decision(name, kind, sibling),
        Rule::Bench => bench_decision(name, kind),
    }
}

/// What a directory was said to hold.
pub open spec fn answered<E: Fn(&str) -> Vec<WalkEntry>>(
    ask: E,
    dir: Seq<char>,
    r: Vec<WalkEntry>,
) -> bool {
    exists|p: &str| p@ == dir && #[trigger] call_ensures(ask, (p,), r)
}

/// `found` holds the archives at and below a directory, in the order of the
/// walk.
pub open spec fn below<E: Fn(&str) -> Vec<WalkEntry>>(
    rule: Rule,
    ask: E,
    dir: Seq<char>,
    levels: u32,
    found: Seq<Seq<char>>,
) -> bool
    decreases levels, 2nat, 0nat,
{
    exists|all: Vec<WalkEntry>| #[trigger]
        answered(ask, dir, all) && entries_below(rule, ask, dir, all@, levels, found)
}

/// `found` holds the archives at and below these entries of a directory.
pub open spec fn entries_below<E: Fn(&str) -> Vec<WalkEntry>>(
    rule: Rule,
    ask: E,
    dir: Seq<char>,
    all: Seq<WalkEntry>,
    levels: u32,
    found: Seq<Seq<char>>,
) -> bool
    decreases levels, 1nat, all.len(),
{
    if all.len() == 0 {
        found.len() == 0
    } else {
        exists|k: int|
            0 <= k <= found.len() && entries_below(
                rule,
                ask,
                dir,
                all.drop_last(),
                levels,
                #[trigger] found.take(k),
            ) && entry_below(rule, ask, dir, all.last(), levels, found.skip(k))
    }
}

/// `found` holds the archives at and below one entry.
pub open spec fn entry_below<E: Fn(&str) -> Vec<WalkEntry>>(
    rule: Rule,
    ask: E,
    dir: Seq<char>,
    e: WalkEntry,
    levels: u32,
    found: Seq<Seq<char>>,
) -> bool
    decreases levels, 0nat, 0nat,
{
    match rule_step(rule, e.name@, e.kind, e.sibling) {
        ListStep::Keep => found == seq![joined(dir, e.name@)],
        ListStep::Descend => if levels > 0 {
            below(rule, ask, joined(dir, e.name@), (levels - 1) as u32, found)
        } else {
            found.len() == 0
        },
        ListStep::Skip => found.len() == 0,
    }
}

/// Adds the archives at and below a directory.
pub fn collect_archive_files<E: Fn(&str) -> Vec<WalkEntry>>(
    rule: Rule,
    ask: &E,
    dir: &str,
    levels: u32,
    out: &mut Vec<String>,
)
    requires
        forall|p: &str| #[trigger] call_requires(*ask, (p,)),
    ensures
        exists|found: Seq<Seq<char>>| #[trigger]
            below(rule, *ask, dir@, levels, found) && views(final(out)@) == views(old(out)@) + found,
    decreases levels,
{
    let ghost start = views(out@);
    let entries = ask(dir);
    let ghost mut found = Seq::<Seq<char>>::empty();
    let mut i: usize = 0;
    proof {
        assert(answered(*ask, dir@, entries));
        assert(entries@.take(0) =~= Seq::<WalkEntry>::empty());
        assert(start + found =~= start);
    }
    while i < entries.len()
        invariant
            i <= entries@.len(),
            forall|p: &str| #[trigger] call_requires(*ask, (p,)),
            entries_below(rule, *ask, dir@, entries@.take(i as int), levels, found),
            views(out@) == start + found,
        decreases entries.len() - i,
    {
        let e = &entries[i];
        let ghost held = views(out@);
        let ghost mut more = Seq::<Seq<char>>::empty();
        match decide(rule, e.name.as_str(), e.kind, e.sibling) {
            ListStep::Keep => {
                let path = join_path(dir, e.name.as_str());
                proof {
                    more = seq![path@];
                }
                out.push(path);
                assert(views(out@) =~= held + more);
            },
            ListStep::Descend => {
                if levels > 0 {
                    let path = join_path(dir, e.name.as_str());
                    collect_archive_files(rule, ask, path.as_str(), levels - 1, out);
                    proof {
                        more = choose|f: Seq<Seq<char>>| #[trigger]
                            below(rule, *ask, path@, (levels - 1) as u32, f) && views(out@) == held + f;
                    }
                } else {
                    assert(held + more =~= held);
                }
            },
            ListStep::Skip => {
                assert(held + more =~= held);
            },
        }
        proof {
            let next = found + more;
            let k = found.len() as int;
            assert(entries@.take(i + 1).drop_last() =~= entries@.take(i as int));
            assert(next.take(k) =~= found);
            assert(next.skip(k) =~= more);
            assert(entry_below(rule, *ask, dir@, *e, levels, more));
            assert(entries_below(rule, *ask, dir@, entries@.take(i + 1), levels, next));
            assert(start + next =~= held + more);
            found = next;
        }
        i = i + 1;
    }
    proof {
        assert(entries@.take(entries@.len() as int) =~= entries@);
        assert(below(rule, *ask, dir@, levels, found));
    }
}

/// Every archive at and below a directory, in path order.
fn archives_below<E: Fn(&str) -> Vec<WalkEntry>>(rule: Rule, dir: &str, ask: &E) -> (r: Vec<String>)
    requires
        forall|p: &str| #[trigger] call_requires(*ask, (p,)),
    ensures
        exists|found: Seq<String>| #[trigger]
            sorted_paths(found, r@) && below(rule, *ask, dir@, WALK_LEVELS, views(found)),
{
    let mut found: Vec<String> = Vec::new();
    collect_archive_files(rule, ask, dir, WALK_LEVELS, &mut found);
    proof {
        let f = choose|f: Seq<Seq<char>>| #[trigger]
            below(rule, *ask, dir@, WALK_LEVELS, f) && views(found@) == Seq::<Seq<char>>::empty()
                + f;
        assert(Seq::<Seq<char>>::empty() + f =~= f);
    }
    let r = sort_paths(&found);
    assert(sorted_paths(found@, r@));
    r
}

/// Every archive under the memex directory, in path order. A directory that
/// does not exist holds nothing.
pub fn list_memex_archives<E: Fn(&str) -> Vec<WalkEntry>>(memex_dir: &str, ask: &E) -> (r: Vec<
    String,
>)
    requires
        forall|p: &str| #[trigger] call_requires(*ask, (p,)),
    ensures
        exists|found: Seq<String>| #[trigger]
            sorted_paths(found, r@) && below(
                Rule::Memex,
                *ask,
                memex_dir@,
                WALK_LEVELS,
                views(found),
            ),
{
    archives_below(Rule::Memex, memex_dir, ask)
}

/// Every uncompressed archive that the bench runs on, in path order.
pub fn collect_uncompressed_archives<E: Fn(&str) -> Vec<WalkEntry>>(dir: &str, ask: &E) -> (r: Vec<
    String,
>)
    requires
        forall|p: &str| #[trigger] call_requires(*ask, (p,)),
    ensures
        exists|found: Seq<String>| #[trigger]
            sorted_paths(found, r@) && below(Rule::Bench, *ask, dir@, WALK_LEVELS, views(found)),
{
    archives_below(Rule::Bench, dir, ask)
}

/// What the entries of a directory are: name, kind, and whether a `.majestic`
/// file of the same stem stands beside.
pub open spec fn seen(all: Seq<WalkEntry>) -> Seq<(Seq<char>, EntryKind, bool)> {
    Seq::new(all.len(), |i: int| (all[i].name@, all[i].kind, all[i].sibling))
}

/// The disk holds `tree` for as long as it is asked.
pub open spec fn stands<E: Fn(&str) -> Vec<WalkEntry>>(
    ask: E,
    tree: spec_fn(Seq<char>) -> Seq<(Seq<char>, EntryKind, bool)>,
) -> bool {
    forall|dir: Seq<char>, r: Vec<WalkEntry>| #[trigger]
        answered(ask, dir, r) ==> seen(r@) == tree(dir)
}

/// What a walk does with an entry as it was seen.
pub open spec fn step_of(rule: Rule, e: (Seq<char>, EntryKind, bool)) -> ListStep {
    rule_step(rule, e.0, e.1, e.2)
}

/// The directory has an entry of this name that takes this step.
pub open spec fn takes(
    rule: Rule,
    tree: spec_fn(Seq<char>) -> Seq<(Seq<char>, EntryKind, bool)>,
    dir: Seq<char>,
    name: Seq<char>,
    step: ListStep,
) -> bool {
    exists|i: int|
        0 <= i < tree(dir).len() && (#[trigger] tree(dir)[i]).0 == name && step_of(rule, tree(dir)[i])
            == step
}

/// The names lead from a directory to an archive: each but the last is a
/// directory to walk, and the last is a file to list.
pub open spec fn way(
    rule: Rule,
    tree: spec_fn(Seq<char>) -> Seq<(Seq<char>, EntryKind, bool)>,
    dir: Seq<char>,
    names: Seq<Seq<char>>,
) -> bool
    decreases names.len(),
{
    if names.len() == 0 {
        false
    } else if names.len() == 1 {
        takes(rule, tree, dir, names[0], ListStep::Keep)
    } else {
        takes(rule, tree, dir, names[0], ListStep::Descend) && way(
            rule,
            tree,
            joined(dir, names[0]),
            names.drop_first(),
        )
    }
}

/// The path that names lead to.
pub open spec fn down(dir: Seq<char>, names: Seq<Seq<char>>) -> Seq<char>
    decreases names.len(),
{
    if names.len() == 0 {
        dir
    } else {
        down(joined(dir, names[0]), names.drop_first())
    }
}

/// An archive below a directory, at most so many directories down.
pub open spec fn lies_below(
    rule: Rule,
    tree: spec_fn(Seq<char>) -> Seq<(Seq<char>, EntryKind, bool)>,
    dir: Seq<char>,
    levels: u32,
    path: Seq<char>,
) -> bool {
    exists|names: Seq<Seq<char>>| #[trigger]
        way(rule, tree, dir, names) && names.len() <= levels + 1 && path == down(dir, names)
}

/// An archive at or below an entry.
pub open spec fn lies_at(
    rule: Rule,
    tree: spec_fn(Seq<char>) -> Seq<(Seq<char>, EntryKind, bool)>,
    dir: Seq<char>,
    e: (Seq<char>, EntryKind, bool),
    levels: u32,
    path: Seq<char>,
) -> bool {
    match step_of(rule, e) {
        ListStep::Keep => path == joined(dir, e.0),
        ListStep::Descend => levels > 0 && lies_below(
            rule,
            tree,
            joined(dir, e.0),
            (levels - 1) as u32,
            path,
        ),
        ListStep::Skip => false,
    }
}

/// What lies below a directory lies at or below one of its entries.
proof fn lemma_lies_below(
    rule: Rule,
    tree: spec_fn(Seq<char>) -> Seq<(Seq<char>, EntryKind, bool)>,
    dir: Seq<char>,
    levels: u32,
    path: Seq<char>,
)
    ensures
        lies_below(rule, tree, dir, levels, path) <==> exists|i: int|
            0 <= i < tree(dir).len() && lies_at(rule, tree, dir, #[trigger] tree(dir)[i], levels, path),
{
    reveal_with_fuel(down, 2);
    if lies_below(rule, tree, dir, levels, path) {
        let names = choose|names: Seq<Seq<char>>| #[trigger]
            way(rule, tree, dir, names) && names.len() <= levels + 1 && path == down(dir, names);
        let step = if names.len() == 1 {
            ListStep::Keep
        } else {
            ListStep::Descend
        };
        let i = choose|i: int|
            0 <= i < tree(dir).len() && (#[trigger] tree(dir)[i]).0 == names[0] && step_of(
                rule,
                tree(dir)[i],
            ) == step;
        if names.len() > 1 {
            assert(way(rule, tree, joined(dir, names[0]), names.drop_first()));
            assert(lies_below(rule, tree, joined(dir, names[0]), (levels - 1) as u32, path));
        } else {
            assert(names.drop_first() =~= Seq::<Seq<char>>::empty());
        }
        assert(lies_at(rule, tree, dir, tree(dir)[i], levels, path));
    }
    if exists|i: int|
        0 <= i < tree(dir).len() && lies_at(rule, tree, dir, #[trigger] tree(dir)[i], levels, path) {
        let i = choose|i: int|
            0 <= i < tree(dir).len() && lies_at(rule, tree, dir, #[trigger] tree(dir)[i], levels, path);
        let e = tree(dir)[i];
        assert(takes(rule, tree, dir, e.0, step_of(rule, e)));
        if step_of(rule, e) == ListStep::Keep {
            let names = seq![e.0];
            assert(names.drop_first() =~= Seq::<Seq<char>>::empty());
            assert(way(rule, tree, dir, names));
        } else {
            let rest = choose|names: Seq<Seq<char>>| #[trigger]
                way(rule, tree, joined(dir, e.0), names) && names.len() <= levels && path == down(
                    joined(dir, e.0),
                    names,
                );
            let names = seq![e.0] + rest;
            assert(rest.len() > 0);
            assert(names.drop_first() =~= rest);
            assert(way(rule, tree, dir, names));
        }
    }
}

proof fn lemma_walk<E: Fn(&str) -> Vec<WalkEntry>>(
    rule: Rule,
    ask: E,
    tree: spec_fn(Seq<char>) -> Seq<(Seq<char>, EntryKind, bool)>,
    dir: Seq<char>,
    levels: u32,
    found: Seq<Seq<char>>,
    path: Seq<char>,
)
    requires
        stands(ask, tree),
        below(rule, ask, dir, levels, found),
    ensures
        found.contains(path) <==> lies_below(rule, tree, dir, levels, path),
    decreases levels, 1nat, 0nat,
{
    let all = choose|all: Vec<WalkEntry>| #[trigger]
        answered(ask, dir, all) && entries_below(rule, ask, dir, all@, levels, found);
    lemma_walk_entries(rule, ask, tree, dir, all@, levels, found, path);
    lemma_lies_below(rule, tree, dir, levels, path);
    let s = seen(all@);
    assert(s == tree(dir));
    if found.contains(path) {
        let i = choose|i: int|
            0 <= i < s.len() && lies_at(rule, tree, dir, #[trigger] s[i], levels, path);
        assert(lies_at(rule, tree, dir, tree(dir)[i], levels, path));
    }
}

proof fn lemma_walk_entries<E: Fn(&str) -> Vec<WalkEntry>>(
    rule: Rule,
    ask: E,
    tree: spec_fn(Seq<char>) -> Seq<(Seq<char>, EntryKind, bool)>,
    dir: Seq<char>,
    all: Seq<WalkEntry>,
    levels: u32,
    found: Seq<Seq<char>>,
    path: Seq<char>,
)
    requires
        stands(ask, tree),
        entries_below(rule, ask, dir, all, levels, found),
    ensures
        found.contains(path) <==> exists|i: int|
            0 <= i < seen(all).len() && lies_at(rule, tree, dir, #[trigger] seen(all)[i], levels, path),
    decreases levels, 0nat, all.len(),
{
    if all.len() > 0 {
        let k = choose|k: int|
            0 <= k <= found.len() && entries_below(
                rule,
                ask,
                dir,
                all.drop_last(),
                levels,
                #[trigger] found.take(k),
            ) && entry_below(rule, ask, dir, all.last(), levels, found.skip(k));
        let (a, b) = (found.take(k), found.skip(k));
        let init = seen(all.drop_last());
        let s = seen(all);
        let e = s[all.len() - 1];
        lemma_walk_entries(rule, ask, tree, dir, all.drop_last(), levels, a, path);
        if step_of(rule, e) == ListStep::Descend && levels > 0 {
            lemma_walk(rule, ask, tree, joined(dir, e.0), (levels - 1) as u32, b, path);
        }
        if step_of(rule, e) == ListStep::Keep {
            assert(b[0] == joined(dir, e.0));
        }
        assert(b.contains(path) <==> lies_at(rule, tree, dir, e, levels, path));
        assert(found =~= a + b);
        assert(found.contains(path) <==> a.contains(path) || b.contains(path)) by {
            if a.contains(path) {
                let i = choose|i: int| 0 <= i < a.len() && a[i] == path;
                assert(found[i] == path);
            }
            if b.contains(path) {
                let i = choose|i: int| 0 <= i < b.len() && b[i] == path;
                assert(found[k + i] == path);
            }
            if found.contains(path) {
                let i = choose|i: int| 0 <= i < found.len() && found[i] == path;
                if i < k {
                    assert(a[i] == path);
                } else {
                    assert(b[i - k] == path);
                }
            }
        }
        assert forall|i: int| 0 <= i < init.len() implies #[trigger] init[i] == s[i] by {}
        if a.contains(path) {
            let i = choose|i: int|
                0 <= i < init.len() && lies_at(rule, tree, dir, #[trigger] init[i], levels, path);
            assert(lies_at(rule, tree, dir, s[i], levels, path));
        }
        if exists|i: int|
            0 <= i < s.len() && lies_at(rule, tree, dir, #[trigger] s[i], levels, path) {
            let i = choose|i: int|
                0 <= i < s.len() && lies_at(rule, tree, dir, #[trigger] s[i], levels, path);
            if i < init.len() {
                assert(lies_at(rule, tree, dir, init[i], levels, path));
            }
        }
    }
}

/// A name that a directory entry can have.
pub open spec fn plain_name(name: Seq<char>) -> bool {
    name.len() > 0 && !name.contains('/') && name != seq!['.'] && name != seq!['.', '.']
}

/// The entries of each directory have plain names, each another.
pub open spec fn tidy(tree: spec_fn(Seq<char>) -> Seq<(Seq<char>, EntryKind, bool)>) -> bool {
    &&& forall|dir: Seq<char>, i: int|
        0 <= i < tree(dir).len() ==> plain_name((#[trigger] tree(dir)[i]).0)
    &&& forall|dir: Seq<char>, i: int, j: int|
        0 <= i < j < tree(dir).len() ==> (#[trigger] tree(dir)[i]).0 != (#[trigger] tree(dir)[j]).0
}

/// A plain name adds one component.
proof fn lemma_plain_component(dir: Seq<char>, name: Seq<char>)
    requires
        plain_name(name),
    ensures
        components(joined(dir, name)) == components(dir).push(name),
        joined(dir, name).len() > 0,
{
    let none = Seq::<char>::empty();
    assert(name[0] != '/');
    lemma_split_before(none, '/', name);
    assert(none + name =~= name);
    assert(split_char(none, '/') =~= seq![none]);
    assert(split_char(name, '/') =~= seq![name]);
    reveal_with_fuel(Seq::filter, 2);
    assert(seq![name].drop_last() =~= Seq::<Seq<char>>::empty());
    assert(seq![name].filter(keeps()) =~= seq![name]);
    if dir.len() > 0 {
        law_joined_components(dir, name);
        assert(components(dir) + seq![name] =~= components(dir).push(name));
    } else {
        assert(dir =~= none);
        assert(seq![none].drop_last() =~= Seq::<Seq<char>>::empty());
        assert(seq![none].filter(keeps()) =~= Seq::<Seq<char>>::empty());
        assert(components(dir) =~= Seq::<Seq<char>>::empty());
        assert(components(name) =~= seq![name]);
    }
}

/// What lies below a directory has its components first.
proof fn lemma_below_components(
    rule: Rule,
    tree: spec_fn(Seq<char>) -> Seq<(Seq<char>, EntryKind, bool)>,
    dir: Seq<char>,
    names: Seq<Seq<char>>,
)
    requires
        tidy(tree),
        way(rule, tree, dir, names),
    ensures
        components(down(dir, names)) == components(dir) + names,
    decreases names.len(),
{
    reveal_with_fuel(down, 2);
    lemma_plain_component(dir, names[0]);
    let next = joined(dir, names[0]);
    if names.len() > 1 {
        lemma_below_components(rule, tree, next, names.drop_first());
        assert(components(dir).push(names[0]) + names.drop_first() =~= components(dir) + names);
    } else {
        assert(names.drop_first() =~= Seq::<Seq<char>>::empty());
        assert(components(dir).push(names[0]) =~= components(dir) + names);
    }
}

/// The first component below a directory is the name of the entry.
proof fn lemma_entry_component(
    rule: Rule,
    tree: spec_fn(Seq<char>) -> Seq<(Seq<char>, EntryKind, bool)>,
    dir: Seq<char>,
    e: (Seq<char>, EntryKind, bool),
    levels: u32,
    path: Seq<char>,
)
    requires
        tidy(tree),
        plain_name(e.0),
        lies_at(rule, tree, dir, e, levels, path),
    ensures
        components(path).len() > components(dir).len(),
        components(path)[components(dir).len() as int] == e.0,
{
    lemma_plain_component(dir, e.0);
    if step_of(rule, e) == ListStep::Descend {
        let next = joined(dir, e.0);
        let names = choose|names: Seq<Seq<char>>| #[trigger]
            way(rule, tree, next, names) && names.len() <= levels && path == down(next, names);
        lemma_below_components(rule, tree, next, names);
    }
}

/// No two paths have the same components.
pub open spec fn each_once(paths: Seq<Seq<char>>) -> bool {
    forall|i: int, j: int|
        0 <= i < j < paths.len() ==> components(#[trigger] paths[i]) != components(
            #[trigger] paths[j],
        )
}

proof fn lemma_walk_once<E: Fn(&str) -> Vec<WalkEntry>>(
    rule: Rule,
    ask: E,
    tree: spec_fn(Seq<char>) -> Seq<(Seq<char>, EntryKind, bool)>,
    dir: Seq<char>,
    levels: u32,
    found: Seq<Seq<char>>,
)
    requires
        stands(ask, tree),
        tidy(tree),
        below(rule, ask, dir, levels, found),
    ensures
        each_once(found),
    decreases levels, 1nat, 0nat,
{
    let all = choose|all: Vec<WalkEntry>| #[trigger]
        answered(ask, dir, all) && entries_below(rule, ask, dir, all@, levels, found);
    let s = seen(all@);
    assert(s == tree(dir));
    assert forall|i: int| 0 <= i < s.len() implies plain_name((#[trigger] s[i]).0) by {
        assert(plain_name(tree(dir)[i].0));
    }
    assert forall|i: int, j: int| 0 <= i < j < s.len() implies (#[trigger] s[i]).0
        != (#[trigger] s[j]).0 by {
        assert(tree(dir)[i].0 != tree(dir)[j].0);
    }
    lemma_entries_once(rule, ask, tree, dir, all@, levels, found);
}

proof fn lemma_entries_once<E: Fn(&str) -> Vec<WalkEntry>>(
    rule: Rule,
    ask: E,
    tree: spec_fn(Seq<char>) -> Seq<(Seq<char>, EntryKind, bool)>,
    dir: Seq<char>,
    all: Seq<WalkEntry>,
    levels: u32,
    found: Seq<Seq<char>>,
)
    requires
        stands(ask, tree),
        tidy(tree),
        entries_below(rule, ask, dir, all, levels, found),
        forall|i: int| 0 <= i < seen(all).len() ==> plain_name((#[trigger] seen(all)[i]).0),
        forall|i: int, j: int|
            0 <= i < j < seen(all).len() ==> (#[trigger] seen(all)[i]).0 != (#[trigger] seen(
                all,
            )[j]).0,
    ensures
        each_once(found),
    decreases levels, 0nat, all.len(),
{
    if all.len() > 0 {
        let k = choose|k: int|
            0 <= k <= found.len() && entries_below(
                rule,
                ask,
                dir,
                all.drop_last(),
                levels,
                #[trigger] found.take(k),
            ) && entry_below(rule, ask, dir, all.last(), levels, found.skip(k));
        let (a, b) = (found.take(k), found.skip(k));
        let init = seen(all.drop_last());
        let s = seen(all);
        let m = all.len() - 1;
        let e = s[m];
        let n = components(dir).len() as int;
        assert forall|i: int| 0 <= i < init.len() implies #[trigger] init[i] == s[i] by {}
        lemma_entries_once(rule, ask, tree, dir, all.drop_last(), levels, a);
        if step_of(rule, e) == ListStep::Descend && levels > 0 {
            lemma_walk_once(rule, ask, tree, joined(dir, e.0), (levels - 1) as u32, b);
        }
        assert(each_once(b));
        assert forall|i: int, j: int| 0 <= i < j < found.len() implies components(
            #[trigger] found[i],
        ) != components(#[trigger] found[j]) by {
            if j < k {
                assert(a[i] == found[i] && a[j] == found[j]);
            } else if i >= k {
                assert(b[i - k] == found[i] && b[j - k] == found[j]);
            } else {
                let (x, y) = (a[i], b[j - k]);
                assert(a.contains(x));
                lemma_walk_entries(rule, ask, tree, dir, all.drop_last(), levels, a, x);
                let h = choose|h: int|
                    0 <= h < init.len() && lies_at(rule, tree, dir, #[trigger] init[h], levels, x);
                assert(init[h] == s[h]);
                lemma_entry_component(rule, tree, dir, s[h], levels, x);
                assert(b.contains(y));
                if step_of(rule, e) == ListStep::Descend {
                    lemma_walk(rule, ask, tree, joined(dir, e.0), (levels - 1) as u32, b, y);
                }
                assert(lies_at(rule, tree, dir, e, levels, y));
                lemma_entry_component(rule, tree, dir, e, levels, y);
                assert(s[h].0 != s[m].0);
            }
        }
    }
}

/// On a disk that stands still, a path is listed if and only if it is an
/// archive below the directory with only directories that the rule enters on
/// its way. Paths come in path order, and where
/// each directory's entries have names of their own, each path comes once. A
/// directory with no entries lists nothing.
pub proof fn law_listing_is_complete<E: Fn(&str) -> Vec<WalkEntry>>(
    rule: Rule,
    ask: E,
    tree: spec_fn(Seq<char>) -> Seq<(Seq<char>, EntryKind, bool)>,
    dir: Seq<char>,
    found: Seq<String>,
    r: Seq<String>,
)
    requires
        stands(ask, tree),
        below(rule, ask, dir, WALK_LEVELS, views(found)),
        sorted_paths(found, r),
        r.len() <= usize::MAX,
    ensures
        forall|p: Seq<char>|
            views(r).contains(p) <==> #[trigger] lies_below(rule, tree, dir, WALK_LEVELS, p),
        forall|i: int, j: int|
            0 <= i < j < r.len() ==> !before(
                path_key((#[trigger] r[j])@),
                path_key((#[trigger] r[i])@),
            ),
        tidy(tree) ==> each_once(views(r)),
        tree(dir).len() == 0 ==> r.len() == 0,
{
    let (keys, p) = choose|keys: Seq<String>, p: Seq<usize>|
        {
            &&& keys.len() == found.len()
            &&& forall|i: int| 0 <= i < found.len() ==> (#[trigger] keys[i])@ == path_key(found[i]@)
            &&& #[trigger] sorted_positions(keys, 0, keys.len() as int, p)
            &&& r.len() == found.len()
            &&& forall|i: int| 0 <= i < r.len() ==> #[trigger] r[i] == found[p[i] as int]
        };
    let (f, v) = (views(found), views(r));
    assert forall|i: int| 0 <= i < r.len() implies 0 <= #[trigger] p[i] < found.len() by {
        assert(p.contains(p[i]));
    }
    assert forall|x: Seq<char>| v.contains(x) <==> #[trigger] lies_below(
        rule,
        tree,
        dir,
        WALK_LEVELS,
        x,
    ) by {
        lemma_walk(rule, ask, tree, dir, WALK_LEVELS, f, x);
        if v.contains(x) {
            let i = choose|i: int| 0 <= i < v.len() && v[i] == x;
            assert(f[p[i] as int] == x);
        }
        if f.contains(x) {
            let i = choose|i: int| 0 <= i < f.len() && f[i] == x;
            assert(p.contains(i as usize));
            let j = choose|j: int| 0 <= j < p.len() && p[j] == i as usize;
            assert(v[j] == x);
        }
    }
    assert forall|i: int, j: int| 0 <= i < j < r.len() implies !before(
        path_key((#[trigger] r[j])@),
        path_key((#[trigger] r[i])@),
    ) && p[i] != p[j] by {
        let (a, b) = (keys[p[i] as int]@, keys[p[j] as int]@);
        law_string_order(a, b, a);
        law_string_order(b, a, b);
    }
    if tidy(tree) {
        lemma_walk_once(rule, ask, tree, dir, WALK_LEVELS, f);
        assert forall|i: int, j: int| 0 <= i < j < v.len() implies components(#[trigger] v[i])
            != components(#[trigger] v[j]) by {
            let (a, b) = (p[i] as int, p[j] as int);
            assert(r[i] == found[a] && r[j] == found[b]);
            assert(f[a] == v[i] && f[b] == v[j]);
            if a < b {
                assert(components(f[a]) != components(f[b]));
            } else {
                assert(components(f[b]) != components(f[a]));
            }
        }
    }
    if tree(dir).len() == 0 && r.len() > 0 {
        assert(v.contains(v[0]));
        lemma_lies_below(rule, tree, dir, WALK_LEVELS, v[0]);
    }
}

} // verus!
