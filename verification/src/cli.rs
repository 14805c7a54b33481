//! What the flags of the `memex` command come to.
use vstd::prelude::*;

use crate::config::ScopeConfig;
use crate::infer::{resolve_ingest_archive_in, resolves, InferredScope};
use crate::memex::{scoped_archive_path, scoped_fault, scoped_path};
use crate::pack::IngestReport;
use crate::paths::{components, components_of, opt_view};
use crate::text::{cat, cat3, decimal, decimal_usize, same_str, views};
use crate::Error;

verus! {

/// One archive, or every archive of the memex directory.
#[derive(Debug, PartialEq, Eq)]
pub enum SearchArchives {
    All,
    One(String),
}

/// Why flags name no archive.
pub enum FlagFault {
    /// A service without an account, or the other way, or neither.
    Unspecified,
    Scope(Seq<char>),
}

/// `e` says why flags name no archive.
pub open spec fn is_fault(e: Error, f: FlagFault) -> bool {
    match f {
        FlagFault::Unspecified => e is ArchiveUnspecified,
        FlagFault::Scope(m) => match e {
            Error::InvalidScope(x) => x@ == m,
            _ => false,
        },
    }
}

/// The archive that flags name: the path, else that of the service and the
/// account. `None`: none of the three is there.
pub open spec fn named_archive(
    explicit: Option<Seq<char>>,
    service: Option<Seq<char>>,
    account: Option<Seq<char>>,
    memex_dir: Seq<char>,
) -> Result<Option<Seq<char>>, FlagFault> {
    match explicit {
        Some(path) => Ok(Some(path)),
        None => match (service, account) {
            (Some(s), Some(a)) => match scoped_fault(s, a) {
                Some(m) => Err(FlagFault::Scope(m)),
                None => Ok(Some(scoped_path(memex_dir, s, a))),
            },
            (None, None) => Ok(None),
            _ => Err(FlagFault::Unspecified),
        },
    }
}

/// The archives that a search reads. No path and no scope is every archive.
pub fn search_archives_from_flags(
    explicit: Option<&String>,
    scope: &ScopeConfig,
    memex_dir: &str,
) -> (r: Result<SearchArchives, Error>)
    ensures
        ({
            let want = named_archive(
                match explicit {
                    Some(p) => Some(p@),
                    None => None,
                },
                opt_view(scope.service),
                opt_view(scope.account),
                memex_dir@,
            );
            match r {
                Ok(SearchArchives::One(p)) => want == Ok::<Option<Seq<char>>, FlagFault>(Some(p@)),
                Ok(SearchArchives::All) => want == Ok::<Option<Seq<char>>, FlagFault>(None),
                Err(e) => want is Err && is_fault(e, want->Err_0),
            }
        }),
{
    match explicit {
        Some(p) => {
            return Ok(SearchArchives::One(p.clone()));
        },
        None => {},
    }
    match (&scope.service, &scope.account) {
        (Some(s), Some(a)) => match scoped_archive_path(memex_dir, s, a) {
            Ok(p) => Ok(SearchArchives::One(p)),
            Err(e) => Err(e),
        },
        (None, None) => Ok(SearchArchives::All),
        _ => Err(Error::ArchiveUnspecified),
    }
}

/// The one archive that flags name.
pub fn archive_from_flags(explicit: Option<&String>, scope: &ScopeConfig, memex_dir: &str) -> (r:
    Result<String, Error>)
    ensures
        ({
            let want = named_archive(
                match explicit {
                    Some(p) => Some(p@),
                    None => None,
                },
                opt_view(scope.service),
                opt_view(scope.account),
                memex_dir@,
            );
            match r {
                Ok(p) => want == Ok::<Option<Seq<char>>, FlagFault>(Some(p@)),
                Err(e) => match want {
                    Ok(found) => found is None && e is ArchiveUnspecified,
                    Err(f) => is_fault(e, f),
                },
            }
        }),
{
    match search_archives_from_flags(explicit, scope, memex_dir) {
        Ok(SearchArchives::One(p)) => Ok(p),
        Ok(SearchArchives::All) => Err(Error::ArchiveUnspecified),
        Err(e) => Err(e),
    }
}

/// The archive that explicit inputs are written to: the path, else that of
/// the scope. `inferred` is the scope on which the inputs agree.
pub fn ingest_output_path(
    explicit: Option<&String>,
    scope: &ScopeConfig,
    memex_dir: &str,
    inferred: Result<InferredScope, Error>,
) -> (r: Result<String, Error>)
    ensures
        match explicit {
            Some(p) => r is Ok && r->Ok_0@ == p@,
            None => resolves(
                memex_dir@,
                opt_view(scope.service),
                opt_view(scope.account),
                inferred,
                r,
            ),
        },
{
    match explicit {
        Some(p) => Ok(p.clone()),
        None => {
            let service = match &scope.service {
                Some(s) => Some(s.as_str()),
                None => None,
            };
            let account = match &scope.account {
                Some(s) => Some(s.as_str()),
                None => None,
            };
            resolve_ingest_archive_in(memex_dir, service, account, inferred)
        },
    }
}

/// What an archive counts: chats under a folder `telegram`, else
/// conversations.
pub open spec fn counted(output: Seq<char>) -> Seq<char> {
    if components(output).contains("telegram"@) {
        "unique chats"@
    } else {
        "unique conversations"@
    }
}

/// The line about an archive that ingest wrote.
pub fn ingest_report_line(report: &IngestReport) -> (r: String)
    ensures
        r@ == "wrote "@ + report.output@ + " ("@ + decimal(report.exports as nat)
            + " export dumps, "@ + decimal(report.conversations as nat) + " "@ + counted(
            report.output@,
        ) + ")"@,
{
    let parts = components_of(&report.output);
    let ghost all = views(parts@);
    let mut chats = false;
    let mut i: usize = 0;
    while i < parts.len()
        invariant
            i <= parts@.len(),
            all == views(parts@),
            chats ==> all.contains("telegram"@),
            !chats ==> forall|k: int| 0 <= k < i ==> #[trigger] all[k] != "telegram"@,
        decreases parts.len() - i,
    {
        proof {
            assert(all[i as int] == parts@[i as int]@);
        }
        if same_str(&parts[i], "telegram") {
            chats = true;
        }
        i = i + 1;
    }
    let unique = if chats {
        "unique chats"
    } else {
        "unique conversations"
    };
    let head = cat3("wrote ", &report.output, " (");
    let exports = cat3(&head, &decimal_usize(report.exports), " export dumps, ");
    let counts = cat3(&exports, &decimal_usize(report.conversations), " ");
    cat3(&counts, unique, ")")
}

/// The line about a home scan that found nothing.
pub fn nothing_found_line(home: &str) -> (r: String)
    ensures
        r@ == "no known export shapes under "@ + home@,
{
    cat("no known export shapes under ", home)
}

/// The size of the worker pool, where one is set. Zero sets none.
pub fn pool_threads(threads: Option<usize>) -> (r: Option<usize>)
    ensures
        r == (if threads == Some(0usize) {
            None
        } else {
            threads
        }),
{
    match threads {
        Some(n) => if n > 0 {
            Some(n)
        } else {
            None
        },
        None => None,
    }
}

/// Which archive the flags mean: the one that is named, whatever the scope,
/// else that of the service and the account, else none.
pub proof fn law_flags_name_an_archive(
    path: Seq<char>,
    s: Seq<char>,
    a: Seq<char>,
    memex_dir: Seq<char>,
    service: Option<Seq<char>>,
    account: Option<Seq<char>>,
)
    ensures
        named_archive(Some(path), service, account, memex_dir) == Ok::<Option<Seq<char>>, FlagFault>(
            Some(path),
        ),
        scoped_fault(s, a) is None ==> named_archive(None, Some(s), Some(a), memex_dir) == Ok::<
            Option<Seq<char>>,
            FlagFault,
        >(Some(scoped_path(memex_dir, s, a))),
        scoped_fault(s, a) is Some ==> named_archive(None, Some(s), Some(a), memex_dir) == Err::<
            Option<Seq<char>>,
            FlagFault,
        >(FlagFault::Scope(scoped_fault(s, a)->0)),
        named_archive(None, None, None, memex_dir) == Ok::<Option<Seq<char>>, FlagFault>(None),
        named_archive(None, Some(s), None, memex_dir) == Err::<Option<Seq<char>>, FlagFault>(
            FlagFault::Unspecified,
        ),
        named_archive(None, None, Some(a), memex_dir) == Err::<Option<Seq<char>>, FlagFault>(
            FlagFault::Unspecified,
        ),
{
}

/// What a Telegram archive counts are chats, any other counts conversations.
pub proof fn law_counted(output: Seq<char>, k: int)
    ensures
        0 <= k < components(output).len() && components(output)[k] == "telegram"@ ==> counted(output)
            == "unique chats"@,
        (forall|j: int| 0 <= j < components(output).len() ==> #[trigger] components(output)[j]
            != "telegram"@) ==> counted(output) == "unique conversations"@,
{
}

} // verus!
