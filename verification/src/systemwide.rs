//! The search of every archive: one pattern, compiled once, on archives that
//! are already mapped.
use vstd::prelude::*;

use crate::archive::Archive;
use crate::grep::{
    built_from, can_cross, compile_matcher, pattern_fault, query_options, search_blob, searched_file, PatternModel,
};
use crate::query::{compile_fault, compile_model, compile_query, compiles_to};
use crate::report::{
    collect_results, collected, exec_with, law_every_archive_is_answered, readable_groups,
    reports_all, unreadable_archives,
    write_search_all_exec, ArchiveResult, SearchExec, SearchGroup, SearchOrigin, SearchRun,
    SearchStatus, SearchStatusSink,
};
use crate::search::{SearchFlags, SearchHit};
use crate::Error;

verus! {

/// An archive that is mapped and whose payload was read.
pub struct OpenedArchive<'a> {
    pub path: String,
    pub archive: Archive<'a>,
    /// The conversation ids of its records, in record order.
    pub ids: Vec<Option<String>>,
}

/// Every archive is well formed.
pub open spec fn all_open(opened: Seq<OpenedArchive>) -> bool {
    forall|i: int| 0 <= i < opened.len() ==> (#[trigger] opened[i]).archive.wf()
}

/// `results` are what searching each archive for `q` gives.
pub open spec fn searched_each(
    q: PatternModel,
    opened: Seq<OpenedArchive>,
    results: Seq<ArchiveResult>,
) -> bool {
    &&& results.len() == opened.len()
    &&& forall|i: int|
        0 <= i < opened.len() ==> (#[trigger] results[i]).path@ == opened[i].path@ && searched_file(
            q,
            opened[i].archive.file(),
            opened[i].ids@,
            results[i].found,
        )
}

/// Searches mapped archives, one after the other. An archive that cannot be
/// searched does not stop the rest.
pub fn search_opened_archives(
    memex_dir: &str,
    opened: &Vec<OpenedArchive>,
    matcher: &grep_pcre2::RegexMatcher,
) -> (r: SearchRun)
    requires
        all_open(opened@),
        !can_cross(built_from(*matcher)),
    ensures
        exists|results: Seq<ArchiveResult>| #[trigger]
            searched_each(built_from(*matcher), opened@, results) && collected(
                memex_dir@,
                results,
                r,
            ),
{
    let mut results: Vec<ArchiveResult> = Vec::new();
    let mut i: usize = 0;
    while i < opened.len()
        invariant
            i <= opened@.len(),
            all_open(opened@),
            !can_cross(built_from(*matcher)),
            results@.len() == i,
            forall|k: int|
                0 <= k < i ==> (#[trigger] results@[k]).path@ == opened@[k].path@ && searched_file(
                    built_from(*matcher),
                    opened@[k].archive.file(),
                    opened@[k].ids@,
                    results@[k].found,
                ),
        decreases opened.len() - i,
    {
        let one = &opened[i];
        assert(opened@[i as int].archive.wf());
        let found = search_blob(&one.archive, &one.ids, matcher);
        results.push(ArchiveResult { path: one.path.clone(), found });
        i = i + 1;
    }
    assert(searched_each(built_from(*matcher), opened@, results@));
    collect_results(memex_dir, results)
}

/// A search of every archive: the pattern is refused before any archive is
/// read, and otherwise each archive is searched.
pub open spec fn searched_all(
    memex_dir: Seq<char>,
    opened: Seq<OpenedArchive>,
    pattern: Seq<char>,
    flags: SearchFlags,
    r: Result<SearchRun, Error>,
) -> bool {
    match compile_fault(pattern, flags) {
        Some(_) => exists|e: Error|
            r == Err::<SearchRun, Error>(e) && #[trigger] compiles_to(pattern, flags, Err(e)),
        None => {
            let q = compile_model(pattern, flags);
            let o = query_options(q);
            match r {
                Ok(run) => q.pattern.len() > 0 && pattern_fault(o) is None && exists|
                    results: Seq<ArchiveResult>,
                | #[trigger]
                    searched_each(o, opened, results) && collected(memex_dir, results, run),
                Err(Error::EmptyPattern) => q.pattern.len() == 0,
                Err(Error::InvalidPattern(e)) => q.pattern.len() > 0 && pattern_fault(o) == Some(e@),
                Err(_) => false,
            }
        },
    }
}

/// Compiles a human or slash-wrapped query once and searches every archive.
pub fn search_listed_archives(
    memex_dir: &str,
    opened: &Vec<OpenedArchive>,
    pattern: &str,
    flags: SearchFlags,
) -> (r: Result<SearchRun, Error>)
    requires
        all_open(opened@),
    ensures
        searched_all(memex_dir@, opened@, pattern@, flags, r),
{
    let query = match compile_query(pattern, flags) {
        Ok(q) => q,
        Err(e) => {
            return Err(e);
        },
    };
    match compile_matcher(&query) {
        Ok(matcher) => Ok(search_opened_archives(memex_dir, opened, &matcher)),
        Err(e) => Err(e),
    }
}

/// `r` holds the groups of a search of every archive, or its error.
pub open spec fn groups_found(
    memex_dir: Seq<char>,
    opened: Seq<OpenedArchive>,
    pattern: Seq<char>,
    flags: SearchFlags,
    r: Result<Vec<SearchGroup>, Error>,
) -> bool {
    match r {
        Ok(groups) => exists|run: SearchRun|
            run.groups == groups && #[trigger] searched_all(
                memex_dir,
                opened,
                pattern,
                flags,
                Ok(run),
            ),
        Err(e) => searched_all(memex_dir, opened, pattern, flags, Err(e)),
    }
}

/// The groups of every archive that could be searched, in path order.
pub fn search_default_exec(
    memex_dir: &str,
    opened: &Vec<OpenedArchive>,
    pattern: &str,
    exec: SearchExec,
) -> (r: Result<Vec<SearchGroup>, Error>)
    requires
        all_open(opened@),
    ensures
        groups_found(memex_dir@, opened@, pattern@, exec.flags, r),
{
    match search_listed_archives(memex_dir, opened, pattern, exec.flags) {
        Ok(run) => {
            let ghost all = run;
            let groups = run.groups;
            assert(searched_all(memex_dir@, opened@, pattern@, exec.flags, Ok(all)));
            Ok(groups)
        },
        Err(e) => Err(e),
    }
}

/// The groups of every archive that could be searched, in path order.
pub fn search_default_with(
    memex_dir: &str,
    opened: &Vec<OpenedArchive>,
    pattern: &str,
    flags: SearchFlags,
) -> (r: Result<Vec<SearchGroup>, Error>)
    requires
        all_open(opened@),
    ensures
        groups_found(memex_dir@, opened@, pattern@, flags, r),
{
    search_default_exec(memex_dir, opened, pattern, SearchExec::from(flags))
}

/// The groups of every archive that could be searched, in path order.
pub fn search_default(
    memex_dir: &str,
    opened: &Vec<OpenedArchive>,
    pattern: &str,
    ignore_case: bool,
) -> (r: Result<Vec<SearchGroup>, Error>)
    requires
        all_open(opened@),
    ensures
        groups_found(
            memex_dir@,
            opened@,
            pattern@,
            (SearchFlags { ignore_case, fixed_strings: false, word_regexp: false }),
            r,
        ),
{
    search_default_with(
        memex_dir,
        opened,
        pattern,
        SearchFlags { ignore_case, fixed_strings: false, word_regexp: false },
    )
}

/// `pairs` are the paths and hits of `groups`.
pub open spec fn pairs_of(groups: Seq<SearchGroup>, pairs: Seq<(String, Vec<SearchHit>)>) -> bool {
    &&& pairs.len() == groups.len()
    &&& forall|i: int|
        0 <= i < groups.len() ==> (#[trigger] pairs[i]).0 == groups[i].path && pairs[i].1
            == groups[i].hits
}

/// The paths and hits of `groups`.
fn into_pairs(groups: Vec<SearchGroup>) -> (r: Vec<(String, Vec<SearchHit>)>)
    ensures
        pairs_of(groups@, r@),
{
    let ghost all = groups@;
    let total: usize = groups.len();
    let mut rest = groups;
    let mut pairs: Vec<(String, Vec<SearchHit>)> = Vec::new();
    let mut done: usize = 0;
    assert(all.skip(0) =~= all);
    while done < total
        invariant
            done <= total,
            total == all.len(),
            rest@ == all.skip(done as int),
            pairs@.len() == done,
            forall|k: int|
                0 <= k < done ==> (#[trigger] pairs@[k]).0 == all[k].path && pairs@[k].1
                    == all[k].hits,
        decreases total - done,
    {
        let group = rest.remove(0);
        proof {
            assert(group == all[done as int]);
            assert(rest@ =~= all.skip(done + 1));
        }
        pairs.push((group.path, group.hits));
        done = done + 1;
    }
    pairs
}

/// `r` holds the hits of each archive that could be searched, or the error.
pub open spec fn hits_found(
    memex_dir: Seq<char>,
    opened: Seq<OpenedArchive>,
    pattern: Seq<char>,
    flags: SearchFlags,
    r: Result<Vec<(String, Vec<SearchHit>)>, Error>,
) -> bool {
    match r {
        Ok(pairs) => exists|groups: Vec<SearchGroup>|
            pairs_of(groups@, pairs@) && #[trigger] groups_found(
                memex_dir,
                opened,
                pattern,
                flags,
                Ok(groups),
            ),
        Err(e) => groups_found(memex_dir, opened, pattern, flags, Err(e)),
    }
}

/// The hits of every archive that could be searched, in path order.
pub fn search_all_archives_with(
    memex_dir: &str,
    opened: &Vec<OpenedArchive>,
    pattern: &str,
    flags: SearchFlags,
) -> (r: Result<Vec<(String, Vec<SearchHit>)>, Error>)
    requires
        all_open(opened@),
    ensures
        hits_found(memex_dir@, opened@, pattern@, flags, r),
{
    match search_default_with(memex_dir, opened, pattern, flags) {
        Ok(groups) => {
            let ghost found = groups;
            let pairs = into_pairs(groups);
            assert(groups_found(memex_dir@, opened@, pattern@, flags, Ok(found)));
            Ok(pairs)
        },
        Err(e) => Err(e),
    }
}

/// The hits of every archive that could be searched, in path order.
pub fn search_all_archives(
    memex_dir: &str,
    opened: &Vec<OpenedArchive>,
    pattern: &str,
    ignore_case: bool,
) -> (r: Result<Vec<(String, Vec<SearchHit>)>, Error>)
    requires
        all_open(opened@),
    ensures
        hits_found(
            memex_dir@,
            opened@,
            pattern@,
            (SearchFlags { ignore_case, fixed_strings: false, word_regexp: false }),
            r,
        ),
{
    search_all_archives_with(
        memex_dir,
        opened,
        pattern,
        SearchFlags { ignore_case, fixed_strings: false, word_regexp: false },
    )
}

/// A search of every archive that records its status: how many archives
/// there are, and one event after each of them. A refused pattern records
/// nothing.
pub open spec fn searched_with_status(
    memex_dir: Seq<char>,
    opened: Seq<OpenedArchive>,
    pattern: Seq<char>,
    flags: SearchFlags,
    before: Seq<SearchStatus>,
    after: Seq<SearchStatus>,
    r: Result<Vec<SearchGroup>, Error>,
) -> bool {
    match r {
        Ok(groups) => exists|run: SearchRun|
            {
                &&& run.groups == groups
                &&& after == before.push(SearchStatus::Starting { archives: opened.len() as usize })
                    + run.statuses@
                &&& #[trigger] searched_all(memex_dir, opened, pattern, flags, Ok(run))
            },
        Err(e) => after == before && searched_all(memex_dir, opened, pattern, flags, Err(e)),
    }
}

/// The groups of every archive that could be searched, in path order, with
/// the status events.
pub fn search_default_exec_with_status(
    memex_dir: &str,
    opened: &Vec<OpenedArchive>,
    pattern: &str,
    exec: SearchExec,
    status: &mut SearchStatusSink,
) -> (r: Result<Vec<SearchGroup>, Error>)
    requires
        all_open(opened@),
    ensures
        searched_with_status(
            memex_dir@,
            opened@,
            pattern@,
            exec.flags,
            old(status)@,
            final(status)@,
            r,
        ),
{
    let ghost before = status@;
    match search_listed_archives(memex_dir, opened, pattern, exec.flags) {
        Ok(run) => {
            let ghost all = run;
            status.record(SearchStatus::Starting { archives: opened.len() });
            let ghost started = status@;
            let mut i: usize = 0;
            while i < run.statuses.len()
                invariant
                    i <= run.statuses@.len(),
                    status@ == started + run.statuses@.take(i as int),
                decreases run.statuses.len() - i,
            {
                status.record(run.statuses[i].copied());
                proof {
                    assert(run.statuses@.take(i + 1) =~= run.statuses@.take(i as int).push(
                        run.statuses@[i as int],
                    ));
                    assert(status@ =~= started + run.statuses@.take(i + 1));
                }
                i = i + 1;
            }
            proof {
                assert(run.statuses@.take(run.statuses@.len() as int) =~= run.statuses@);
                assert(searched_all(memex_dir@, opened@, pattern@, exec.flags, Ok(all)));
            }
            Ok(run.groups)
        },
        Err(e) => Err(e),
    }
}

/// The hits of every archive that could be searched, in path order, with the
/// status events.
pub fn search_all_archives_with_status(
    memex_dir: &str,
    opened: &Vec<OpenedArchive>,
    pattern: &str,
    flags: SearchFlags,
    status: &mut SearchStatusSink,
) -> (r: Result<Vec<(String, Vec<SearchHit>)>, Error>)
    requires
        all_open(opened@),
    ensures
        exists|found: Result<Vec<SearchGroup>, Error>|
            {
                &&& #[trigger] searched_with_status(
                    memex_dir@,
                    opened@,
                    pattern@,
                    flags,
                    old(status)@,
                    final(status)@,
                    found,
                )
                &&& match found {
                    Ok(groups) => r matches Ok(pairs) && pairs_of(groups@, pairs@),
                    Err(e) => r == Err::<Vec<(String, Vec<SearchHit>)>, Error>(e),
                }
            },
{
    let exec = SearchExec::from(flags);
    let found = search_default_exec_with_status(memex_dir, opened, pattern, exec, status);
    let ghost all = found;
    let r = match found {
        Ok(groups) => Ok(into_pairs(groups)),
        Err(e) => Err(e),
    };
    assert(searched_with_status(
        memex_dir@,
        opened@,
        pattern@,
        flags,
        old(status)@,
        status@,
        all,
    ));
    r
}

/// `r` is the report of a search of every archive, or its error.
pub open spec fn all_reported(
    memex_dir: Seq<char>,
    opened: Seq<OpenedArchive>,
    pattern: Seq<char>,
    exec: SearchExec,
    r: Result<(String, usize), Error>,
) -> bool {
    exists|found: Result<Vec<SearchGroup>, Error>|
        {
            &&& #[trigger] groups_found(memex_dir, opened, pattern, exec.flags, found)
            &&& match found {
                Ok(groups) => reports_all(memex_dir, groups@, exec, r),
                Err(e) => r == Err::<(String, usize), Error>(e),
            }
        }
}

/// Searches every archive and reports the hits for people, with how many
/// snippet groups are shown.
pub fn write_search_all_with(
    memex_dir: &str,
    opened: &Vec<OpenedArchive>,
    pattern: &str,
    flags: SearchFlags,
) -> (r: Result<(String, usize), Error>)
    requires
        all_open(opened@),
    ensures
        all_reported(memex_dir@, opened@, pattern@, exec_with(flags), r),
{
    let exec = SearchExec::from(flags);
    let found = search_default_exec(memex_dir, opened, pattern, exec);
    let ghost all = found;
    let r = match found {
        Ok(groups) => write_search_all_exec(memex_dir, &groups, exec),
        Err(e) => Err(e),
    };
    assert(groups_found(memex_dir@, opened@, pattern@, exec.flags, all));
    r
}

/// Searches every archive and reports the hits for people.
pub fn write_search_all(
    memex_dir: &str,
    opened: &Vec<OpenedArchive>,
    pattern: &str,
    ignore_case: bool,
) -> (r: Result<(String, usize), Error>)
    requires
        all_open(opened@),
    ensures
        all_reported(
            memex_dir@,
            opened@,
            pattern@,
            exec_with(SearchFlags { ignore_case, fixed_strings: false, word_regexp: false }),
            r,
        ),
{
    write_search_all_with(
        memex_dir,
        opened,
        pattern,
        SearchFlags { ignore_case, fixed_strings: false, word_regexp: false },
    )
}

/// Searches every archive and reports the hits for people.
pub fn write_default_search(
    memex_dir: &str,
    opened: &Vec<OpenedArchive>,
    pattern: &str,
    ignore_case: bool,
) -> (r: Result<(String, usize), Error>)
    requires
        all_open(opened@),
    ensures
        all_reported(
            memex_dir@,
            opened@,
            pattern@,
            exec_with(SearchFlags { ignore_case, fixed_strings: false, word_regexp: false }),
            r,
        ),
{
    write_search_all(memex_dir, opened, pattern, ignore_case)
}

/// One archive that cannot be searched does not stop the others: each
/// archive has its hits among the groups, or stands with its error among the
/// unreadable ones.
pub proof fn law_one_bad_archive_does_not_stop_a_search(
    memex_dir: Seq<char>,
    results: Seq<ArchiveResult>,
    run: SearchRun,
    i: int,
)
    requires
        collected(memex_dir, results, run),
        0 <= i < results.len(),
    ensures
        match results[i].found {
            Ok(found) => run.groups@.contains(
                SearchGroup {
                    path: results[i].path,
                    origin: SearchOrigin::Archive,
                    hits: found.hits,
                    duplicate_omitted: found.duplicate_omitted,
                },
            ),
            Err(e) => run.unreadable@.contains((results[i].path, e)),
        },
{
    lemma_each_result_is_kept(results, i);
    run.groups@.to_multiset_ensures();
    readable_groups(results).to_multiset_ensures();
    if let Ok(found) = results[i].found {
        let g = SearchGroup {
            path: results[i].path,
            origin: SearchOrigin::Archive,
            hits: found.hits,
            duplicate_omitted: found.duplicate_omitted,
        };
        assert(readable_groups(results).to_multiset().count(g) > 0);
        assert(run.groups@.to_multiset().count(g) > 0);
    }
}

proof fn lemma_each_result_is_kept(results: Seq<ArchiveResult>, i: int)
    requires
        0 <= i < results.len(),
    ensures
        match results[i].found {
            Ok(found) => readable_groups(results).contains(
                SearchGroup {
                    path: results[i].path,
                    origin: SearchOrigin::Archive,
                    hits: found.hits,
                    duplicate_omitted: found.duplicate_omitted,
                },
            ),
            Err(e) => unreadable_archives(results).contains((results[i].path, e)),
        },
    decreases results.len(),
{
    let head = readable_groups(results.drop_last());
    let bad = unreadable_archives(results.drop_last());
    if i == results.len() - 1 {
        match results[i].found {
            Ok(found) => {
                let g = SearchGroup {
                    path: results[i].path,
                    origin: SearchOrigin::Archive,
                    hits: found.hits,
                    duplicate_omitted: found.duplicate_omitted,
                };
                assert(head.push(g)[head.len() as int] == g);
            },
            Err(e) => {
                assert(bad.push((results[i].path, e))[bad.len() as int] == (results[i].path, e));
            },
        }
    } else {
        lemma_each_result_is_kept(results.drop_last(), i);
        match results[i].found {
            Ok(found) => {
                let g = SearchGroup {
                    path: results[i].path,
                    origin: SearchOrigin::Archive,
                    hits: found.hits,
                    duplicate_omitted: found.duplicate_omitted,
                };
                let k = head.index_of(g);
                assert(readable_groups(results)[k] == g);
            },
            Err(e) => {
                let k = bad.index_of((results[i].path, e));
                assert(unreadable_archives(results)[k] == (results[i].path, e));
            },
        }
    }
}

/// A search over all archives asks each of them the compiled query, and every
/// archive is answered: with its group of hits, or with its error.
pub proof fn law_every_archive_is_searched(
    memex_dir: Seq<char>,
    opened: Seq<OpenedArchive>,
    pattern: Seq<char>,
    flags: SearchFlags,
    run: SearchRun,
    i: int,
)
    requires
        searched_all(memex_dir, opened, pattern, flags, Ok(run)),
        0 <= i < opened.len(),
    ensures
        run.groups@.len() + run.unreadable@.len() == opened.len(),
        run.statuses@.len() == opened.len(),
        (exists|g: int|
            0 <= g < run.groups@.len() && (#[trigger] run.groups@[g]).path@ == opened[i].path@) || (
        exists|u: int|
            0 <= u < run.unreadable@.len() && (#[trigger] run.unreadable@[u]).0@
                == opened[i].path@),
{
    let o = query_options(compile_model(pattern, flags));
    let results = choose|results: Seq<ArchiveResult>| #[trigger]
        searched_each(o, opened, results) && collected(memex_dir, results, run);
    law_every_archive_is_answered(results, i);
    law_one_bad_archive_does_not_stop_a_search(memex_dir, results, run, i);
    let want = readable_groups(results);
    want.to_multiset_ensures();
    run.groups@.to_multiset_ensures();
    assert(results[i].path@ == opened[i].path@);
    match results[i].found {
        Ok(found) => {
            let x = SearchGroup {
                path: results[i].path,
                origin: SearchOrigin::Archive,
                hits: found.hits,
                duplicate_omitted: found.duplicate_omitted,
            };
            let g = choose|g: int| 0 <= g < run.groups@.len() && run.groups@[g] == x;
            assert(run.groups@[g].path@ == opened[i].path@);
        },
        Err(e) => {
            let u = choose|u: int|
                0 <= u < run.unreadable@.len() && run.unreadable@[u] == (results[i].path, e);
            assert(run.unreadable@[u].0@ == opened[i].path@);
        },
    }
}

} // verus!
