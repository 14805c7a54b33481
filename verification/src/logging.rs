//! What is logged, at which level, and what the terminal shows of it.
//!
//! The terminal shows errors and information by default. The journal keeps
//! everything. This module decides; the caller writes.
use vstd::prelude::*;

use crate::paths::{opt_str, opt_view};
use crate::text::{
    cat3, decimal, decimal_usize, is_white, law_trim, lower, same_str, to_lower, trim, trimmed,
};
use crate::{error_text, Error, IoKind};

verus! {

/// Identifier of the journal entries.
pub const SYSLOG_IDENTIFIER: &'static str = "memex";

/// Denied paths that the terminal shows one by one.
pub const CONSOLE_DENIED_CAP: usize = 1;

/// Level of a log event.
#[derive(Clone, Copy, Debug, PartialEq, Eq, Structural)]
pub enum Level {
    Error,
    Warn,
    Info,
    Debug,
    Trace,
}

/// Whether the default terminal shows a level.
pub fn default_console_allows(level: Level) -> (r: bool)
    ensures
        r == (level == Level::Error || level == Level::Info),
{
    match level {
        Level::Error => true,
        Level::Info => true,
        _ => false,
    }
}

/// The first of two variables that is set and not empty.
pub open spec fn first_given(a: Option<Seq<char>>, b: Option<Seq<char>>) -> Option<Seq<char>> {
    match a {
        Some(v) if v.len() > 0 => Some(v),
        _ => match b {
            Some(w) if w.len() > 0 => Some(w),
            _ => None,
        },
    }
}

/// The terminal directive of the environment: `MEMEX_LOG`, else `RUST_LOG`.
/// Empty variables count as unset.
pub fn env_console_directive(memex_log: Option<&str>, rust_log: Option<&str>) -> (r: Option<
    String,
>)
    ensures
        opt_view(r) == first_given(opt_str(memex_log), opt_str(rust_log)),
{
    match memex_log {
        Some(v) => {
            let s = v.to_owned();
            if !s.is_empty() {
                return Some(s);
            }
        },
        None => {},
    }
    match rust_log {
        Some(v) => {
            let s = v.to_owned();
            if !s.is_empty() {
                return Some(s);
            }
        },
        None => {},
    }
    None
}

/// What the terminal shows.
#[derive(Debug)]
pub enum ConsoleFilter {
    /// Errors and information.
    Quiet,
    /// What a filter directive of the user says.
    Env(String),
}

/// A directive that stands for the quiet terminal.
pub open spec fn quiet_directive(directive: Seq<char>) -> bool {
    let d = lower(trim(directive));
    d.len() == 0 || d == "info"@ || d == "error+info"@ || d == "error,info"@
}

fn is_quiet_console_directive(directive: &str) -> (r: bool)
    ensures
        r == quiet_directive(directive@),
{
    let d = to_lower(trimmed(directive).as_str());
    d.is_empty() || same_str(d.as_str(), "info") || same_str(d.as_str(), "error+info") || same_str(
        d.as_str(),
        "error,info",
    )
}

/// Whether `tracing_subscriber::EnvFilter` accepts a directive.
pub uninterp spec fn env_filter_accepts(directive: Seq<char>) -> bool;

/// Calls `tracing_subscriber::EnvFilter::try_new`. Whether it accepts a
/// directive is a function of the text.
#[verifier::external_body]
fn env_filter_parses(directive: &str) -> (r: bool)
    ensures
        r == env_filter_accepts(directive@),
{
    tracing_subscriber::EnvFilter::try_new(directive).is_ok()
}

/// `f` is the filter of a directive, when `accepted` says whether the
/// trimmed directive parses. A directive that does not parse leaves the
/// terminal quiet.
pub open spec fn is_filter(directive: Option<Seq<char>>, accepted: bool, f: ConsoleFilter) -> bool {
    match directive {
        Some(d) if !quiet_directive(trim(d)) && accepted => f matches ConsoleFilter::Env(e) && e@
            == trim(d),
        _ => f is Quiet,
    }
}

/// The filter of a directive, when `accepted` says whether it parses.
pub fn filter_for(directive: Option<&str>, accepted: bool) -> (r: ConsoleFilter)
    ensures
        is_filter(opt_str(directive), accepted, r),
{
    match directive {
        Some(d) => {
            let t = trimmed(d);
            if !is_quiet_console_directive(t.as_str()) && accepted {
                ConsoleFilter::Env(t)
            } else {
                ConsoleFilter::Quiet
            }
        },
        None => ConsoleFilter::Quiet,
    }
}

/// Whether the directive, where there is one, parses.
pub open spec fn accepts(directive: Option<Seq<char>>) -> bool {
    match directive {
        Some(d) => env_filter_accepts(trim(d)),
        None => false,
    }
}

/// The terminal filter of a directive.
pub fn console_filter_from_directive(directive: Option<&str>) -> (r: ConsoleFilter)
    ensures
        is_filter(opt_str(directive), accepts(opt_str(directive)), r),
{
    let accepted = match directive {
        Some(d) => env_filter_parses(trimmed(d).as_str()),
        None => false,
    };
    filter_for(directive, accepted)
}

/// The directive that decides: that of the environment, else the configured
/// one.
pub open spec fn deciding(env: Option<Seq<char>>, config: Option<Seq<char>>) -> Option<Seq<char>> {
    match env {
        Some(e) => Some(e),
        None => config,
    }
}

/// The terminal filter to install. The environment wins over the configured
/// filter.
pub fn init_from_directive(env: Option<&str>, config_filter: Option<&str>) -> (r: ConsoleFilter)
    ensures
        is_filter(
            deciding(opt_str(env), opt_str(config_filter)),
            accepts(deciding(opt_str(env), opt_str(config_filter))),
            r,
        ),
{
    match env {
        Some(e) => console_filter_from_directive(Some(e)),
        None => console_filter_from_directive(config_filter),
    }
}

/// The terminal filter to install without a configured one.
pub fn init(env: Option<&str>) -> (r: ConsoleFilter)
    ensures
        is_filter(opt_str(env), accepts(opt_str(env)), r),
{
    init_from_directive(env, None)
}

/// One log event.
#[derive(Debug)]
pub struct LogEvent {
    pub level: Level,
    pub message: String,
    pub path: Option<String>,
    pub detail: Option<String>,
    /// The terminal may show it.
    pub console: bool,
}

/// What an event says.
pub open spec fn says(
    e: LogEvent,
    level: Level,
    message: Seq<char>,
    path: Option<Seq<char>>,
    detail: Option<Seq<char>>,
    console: bool,
) -> bool {
    &&& e.level == level
    &&& e.message@ == message
    &&& opt_view(e.path) == path
    &&& opt_view(e.detail) == detail
    &&& e.console == console
}

/// Denied paths of the running scan, and of the last finished one.
#[derive(Clone, Copy, Debug, PartialEq, Eq, Structural)]
pub struct DeniedPaths {
    pub count: usize,
    pub last: usize,
}

impl Default for DeniedPaths {
    fn default() -> (r: DeniedPaths)
        ensures
            r.count == 0,
            r.last == 0,
    {
        DeniedPaths { count: 0, last: 0 }
    }
}

/// Forgets the denied paths, at the start of a scan.
pub fn reset_permission_denied_count(denied: &mut DeniedPaths)
    ensures
        final(denied).count == 0,
        final(denied).last == 0,
{
    denied.count = 0;
    denied.last = 0;
}

/// Denied paths of the last finished scan.
pub fn last_permission_denied_count(denied: &DeniedPaths) -> (r: usize)
    ensures
        r == denied.last,
{
    denied.last
}

/// One more, as far as it fits.
pub open spec fn one_more(n: usize) -> usize {
    if n < usize::MAX {
        (n + 1) as usize
    } else {
        n
    }
}

/// A denied path is counted and logged as an error. The terminal shows the
/// first one only.
pub open spec fn logs_denied(
    was: DeniedPaths,
    path: Seq<char>,
    error: Seq<char>,
    now: DeniedPaths,
    e: LogEvent,
) -> bool {
    &&& now.count == one_more(was.count)
    &&& now.last == was.last
    &&& says(
        e,
        Level::Error,
        "permission denied while reading a path"@,
        Some(path),
        Some(error),
        one_more(was.count) <= CONSOLE_DENIED_CAP,
    )
}

fn emit_permission_denied(denied: &mut DeniedPaths, path: &str, error: &str) -> (r: LogEvent)
    ensures
        logs_denied(*old(denied), path@, error@, *final(denied), r),
{
    let n: usize = denied.count.saturating_add(1);
    denied.count = n;
    LogEvent {
        level: Level::Error,
        message: "permission denied while reading a path".to_owned(),
        path: Some(path.to_owned()),
        detail: Some(error.to_owned()),
        console: n <= CONSOLE_DENIED_CAP,
    }
}

/// What a failure on a walk logs: a denied path is an error, a missing one a
/// trace, another one a debug event.
pub open spec fn logs_io(
    was: DeniedPaths,
    path: Seq<char>,
    kind: IoKind,
    error: Seq<char>,
    now: DeniedPaths,
    e: LogEvent,
) -> bool {
    match kind {
        IoKind::PermissionDenied => logs_denied(was, path, error, now, e),
        IoKind::NotFound => now == was && says(
            e,
            Level::Trace,
            "path not found while walking"@,
            Some(path),
            Some(error),
            true,
        ),
        IoKind::Other => now == was && says(
            e,
            Level::Debug,
            "skipped an unreadable path"@,
            Some(path),
            Some(error),
            true,
        ),
    }
}

fn event(level: Level, message: &str, path: &str, detail: &str) -> (r: LogEvent)
    ensures
        says(r, level, message@, Some(path@), Some(detail@), true),
{
    LogEvent {
        level,
        message: message.to_owned(),
        path: Some(path.to_owned()),
        detail: Some(detail.to_owned()),
        console: true,
    }
}

/// Logs a failure on a walk.
pub fn log_io_on_walk(denied: &mut DeniedPaths, path: &str, kind: IoKind, error: &str) -> (r:
    LogEvent)
    ensures
        logs_io(*old(denied), path@, kind, error@, *final(denied), r),
{
    match kind {
        IoKind::PermissionDenied => emit_permission_denied(denied, path, error),
        IoKind::NotFound => event(Level::Trace, "path not found while walking", path, error),
        IoKind::Other => event(Level::Debug, "skipped an unreadable path", path, error),
    }
}

/// Logs a denied path. Another failure is logged as on a walk.
pub fn log_permission_denied(denied: &mut DeniedPaths, path: &str, kind: IoKind, error: &str) -> (r:
    LogEvent)
    ensures
        logs_io(*old(denied), path@, kind, error@, *final(denied), r),
{
    match kind {
        IoKind::PermissionDenied => emit_permission_denied(denied, path, error),
        _ => log_io_on_walk(denied, path, kind, error),
    }
}

/// Ends a scan: the count moves to the last scan, and more denied paths than
/// the terminal showed give one error with their number.
pub fn emit_permission_denied_summary(denied: &mut DeniedPaths) -> (r: Option<LogEvent>)
    ensures
        final(denied).count == 0,
        final(denied).last == old(denied).count,
        match r {
            Some(e) => old(denied).count > CONSOLE_DENIED_CAP && says(
                e,
                Level::Error,
                "permission denied on "@ + decimal(old(denied).count as nat)
                    + " paths; see journalctl --user SYSLOG_IDENTIFIER=memex"@,
                None,
                None,
                true,
            ),
            None => old(denied).count <= CONSOLE_DENIED_CAP,
        },
{
    let n: usize = denied.count;
    denied.count = 0;
    denied.last = n;
    if n > CONSOLE_DENIED_CAP {
        let d = decimal_usize(n);
        Some(
            LogEvent {
                level: Level::Error,
                message: cat3(
                    "permission denied on ",
                    d.as_str(),
                    " paths; see journalctl --user SYSLOG_IDENTIFIER=memex",
                ),
                path: None,
                detail: None,
                console: true,
            },
        )
    } else {
        None
    }
}

/// Logs a skip that is expected.
pub fn log_expected_skip(path: &str, reason: &str) -> (r: LogEvent)
    ensures
        says(
            r,
            Level::Debug,
            "skipped a path that is not a memex source"@,
            Some(path@),
            Some(reason@),
            true,
        ),
{
    event(Level::Debug, "skipped a path that is not a memex source", path, reason)
}

/// Logs an error on a path. File errors are logged as on a walk.
pub fn log_error_on_path(denied: &mut DeniedPaths, path: &str, error: &Error) -> (r: LogEvent)
    ensures
        match *error {
            Error::Io(kind, m) => logs_io(*old(denied), path@, kind, m@, *final(denied), r),
            _ => *final(denied) == *old(denied) && says(
                r,
                Level::Debug,
                "skipped an unreadable path"@,
                Some(path@),
                Some(error_text(*error)),
                true,
            ),
        },
{
    match error {
        Error::Io(kind, m) => log_io_on_walk(denied, path, *kind, m.as_str()),
        _ => {
            let m = error.message();
            event(Level::Debug, "skipped an unreadable path", path, m.as_str())
        },
    }
}

/// Logs an archive that a search could not read. A denied archive is an
/// error, another one a warning.
pub fn log_unreadable_archive(denied: &mut DeniedPaths, path: &str, error: &Error) -> (r: LogEvent)
    ensures
        match *error {
            Error::Io(IoKind::PermissionDenied, m) => logs_denied(
                *old(denied),
                path@,
                m@,
                *final(denied),
                r,
            ),
            _ => *final(denied) == *old(denied) && says(
                r,
                Level::Warn,
                "skipped an unreadable archive"@,
                Some(path@),
                Some(error_text(*error)),
                true,
            ),
        },
{
    match error {
        Error::Io(IoKind::PermissionDenied, m) => log_permission_denied(
            denied,
            path,
            IoKind::PermissionDenied,
            m.as_str(),
        ),
        _ => {
            let m = error.message();
            event(Level::Warn, "skipped an unreadable archive", path, m.as_str())
        },
    }
}

/// The terminal shows the first denied path of a scan and no later one, and
/// the summary comes exactly when there was a later one.
pub proof fn law_denied_paths_do_not_flood(
    was: DeniedPaths,
    path: Seq<char>,
    error: Seq<char>,
    now: DeniedPaths,
    e: LogEvent,
)
    requires
        logs_denied(was, path, error, now, e),
    ensures
        e.console <==> was.count == 0,
        now.count > CONSOLE_DENIED_CAP <==> was.count > 0,
{
}

/// Which directive decides: the first of the two variables that is not empty,
/// and the settings only where there is none.
pub proof fn law_deciding_directive(a: Seq<char>, b: Seq<char>, c: Seq<char>)
    requires
        a.len() > 0,
        b.len() > 0,
    ensures
        first_given(Some(a), Some(b)) == Some(a),
        first_given(None, Some(b)) == Some(b),
        first_given(Some(Seq::empty()), Some(b)) == Some(b),
        first_given(Some(Seq::empty()), Some(Seq::empty())) is None,
        first_given(None, None) is None,
        deciding(Some(a), Some(c)) == Some(a),
        deciding(None, Some(c)) == Some(c),
        deciding(None, None) is None,
{
}

/// The console is quiet without a directive, and for a blank one, `info`,
/// `error+info` and `error,info`. A directive that does not parse leaves it
/// quiet too. Any other is used as it stands.
pub proof fn law_console_filter(d: Seq<char>, f: ConsoleFilter, accepted: bool)
    requires
        d.len() > 0,
        !is_white(d[0]),
        !is_white(d[d.len() - 1]),
        is_filter(Some(d), accepted, f),
    ensures
        seq!["info"@, "error+info"@, "error,info"@].contains(lower(d)) ==> f is Quiet,
        !accepted ==> f is Quiet,
        accepted && !seq!["info"@, "error+info"@, "error,info"@].contains(lower(d))
            ==> (f matches ConsoleFilter::Env(e) && e@ == d),
{
    let none = Seq::<char>::empty();
    law_trim(none, d, none);
    assert(none + d + none =~= d);
    let all = seq!["info"@, "error+info"@, "error,info"@];
    assert(all[0] == "info"@ && all[1] == "error+info"@ && all[2] == "error,info"@);
    assert(lower(d).len() == d.len());
}

/// How much is said of an unreadable path: the first denied path on the
/// console, a missing one at the lowest level, any other for debugging.
pub proof fn law_io_levels(
    was: DeniedPaths,
    path: Seq<char>,
    kind: IoKind,
    error: Seq<char>,
    now: DeniedPaths,
    e: LogEvent,
)
    requires
        logs_io(was, path, kind, error, now, e),
    ensures
        opt_view(e.path) == Some(path),
        opt_view(e.detail) == Some(error),
        kind == IoKind::PermissionDenied ==> e.level == Level::Error && (was.count < usize::MAX
            ==> now.count == was.count + 1) && (e.console <==> was.count == 0),
        kind == IoKind::NotFound ==> e.level == Level::Trace && now == was,
        kind == IoKind::Other ==> e.level == Level::Debug && now == was,
{
}

} // verus!
