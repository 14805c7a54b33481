use majestic::cli::{
    archive_from_flags, ingest_output_path, ingest_report_line, nothing_found_line, pool_threads,
    search_archives_from_flags, SearchArchives,
};
use majestic::config::{
    config_file_path_from, expand_tilde, CliOverlay, Config, ScopeConfig,
};
use majestic::infer::{ingest_from_flags, resolve_ingest_archive, InferredScope, IngestPlan};
use majestic::logging::{
    console_filter_from_directive, default_console_allows, emit_permission_denied_summary, init,
    init_from_directive, last_permission_denied_count, log_expected_skip, log_permission_denied,
    reset_permission_denied_count, ConsoleFilter, DeniedPaths, Level, SYSLOG_IDENTIFIER,
};
use majestic::memex::{default_memex_dir, home_dir, scoped_archive_path};
use majestic::pack::IngestReport;
use majestic::scan::home_scan_skip_reason;
use majestic::{Error, IoKind};

fn scope(service: Option<&str>, account: Option<&str>) -> ScopeConfig {
    ScopeConfig {
        service: service.map(str::to_owned),
        account: account.map(str::to_owned),
    }
}

fn memex_dir() -> &'static str {
    "/tmp/majestic-test-memex-dir"
}

#[test]
fn explicit_archive_path_wins_over_service_and_account() {
    let path = "/tmp/explicit.majestic".to_owned();
    let got = archive_from_flags(
        Some(&path),
        &scope(Some("agents/grok"), Some("personal")),
        memex_dir(),
    )
    .expect("explicit path wins");
    assert_eq!(got, path);
}

#[test]
fn missing_service_account_and_explicit_path_is_error() {
    let err = archive_from_flags(None, &scope(None, None), memex_dir()).unwrap_err();
    assert!(
        matches!(err, Error::ArchiveUnspecified),
        "stats still needs --service and --account, or an explicit archive path"
    );
}

#[test]
fn search_without_service_account_or_path_searches_all_archives() {
    let got = search_archives_from_flags(None, &scope(None, None), memex_dir())
        .expect("search default is every archive under memex_dir");
    assert_eq!(got, SearchArchives::All);
}

#[test]
fn search_explicit_archive_path_is_one_file() {
    let path = "/tmp/explicit.majestic".to_owned();
    let got = search_archives_from_flags(
        Some(&path),
        &scope(Some("agents/grok"), Some("personal")),
        memex_dir(),
    )
    .expect("explicit path wins");
    assert_eq!(got, SearchArchives::One(path));
}

#[test]
fn search_service_without_account_is_error() {
    let err = search_archives_from_flags(None, &scope(Some("agents/grok"), None), memex_dir())
        .unwrap_err();
    assert!(matches!(err, Error::ArchiveUnspecified));
}

#[test]
fn search_account_without_service_is_error() {
    let err = search_archives_from_flags(None, &scope(None, Some("personal")), memex_dir())
        .unwrap_err();
    assert!(matches!(err, Error::ArchiveUnspecified));
}

#[test]
fn service_without_account_is_error() {
    let err =
        archive_from_flags(None, &scope(Some("agents/grok"), None), memex_dir()).unwrap_err();
    assert!(matches!(err, Error::ArchiveUnspecified));
}

#[test]
fn account_without_service_is_error() {
    let err = archive_from_flags(None, &scope(None, Some("personal")), memex_dir()).unwrap_err();
    assert!(matches!(err, Error::ArchiveUnspecified));
}

#[test]
fn ingest_explicit_output_wins_without_scope() {
    let path = "/tmp/explicit.majestic".to_owned();
    let got = ingest_output_path(
        Some(&path),
        &scope(None, None),
        memex_dir(),
        Err(Error::NotGrokExport),
    )
    .expect("explicit -o wins without inferring");
    assert_eq!(got, path);
}

#[test]
fn ingest_flags_win_over_inferred_scope() {
    let got = ingest_output_path(
        None,
        &scope(Some("agents/grok"), Some("personal")),
        "/m",
        Err(Error::NotGrokExport),
    )
    .expect("both flags");
    assert_eq!(got, "/m/agents/grok/personal.majestic");
    let got = resolve_ingest_archive(
        "/home/u",
        None,
        None,
        Ok(InferredScope {
            service: "notes/markdown".to_owned(),
            account: "vault".to_owned(),
        }),
    )
    .expect("inferred");
    assert_eq!(got, "/home/u/memex/notes/markdown/vault.majestic");
    assert!(matches!(
        resolve_ingest_archive("/home/u", Some("x"), None, Err(Error::AccountDisagree)),
        Err(Error::AccountDisagree)
    ));
}

#[test]
fn ingest_report_line_names_telegram_unique_chats() {
    let report = IngestReport {
        output: "/tmp/memex/social/telegram/hunter.majestic".to_owned(),
        exports: 76,
        conversations: 24,
    };
    let line = ingest_report_line(&report);
    assert_eq!(
        line,
        "wrote /tmp/memex/social/telegram/hunter.majestic (76 export dumps, 24 unique chats)"
    );
}

#[test]
fn ingest_report_line_names_unique_conversations() {
    let report = IngestReport {
        output: "/tmp/memex/agents/grok/telegram.majestic".to_owned(),
        exports: 1,
        conversations: 2,
    };
    assert_eq!(
        ingest_report_line(&report),
        "wrote /tmp/memex/agents/grok/telegram.majestic (1 export dumps, 2 unique conversations)"
    );
}

#[test]
fn a_scan_that_found_nothing_says_so() {
    assert_eq!(
        nothing_found_line("/home/u"),
        "no known export shapes under /home/u"
    );
}

#[test]
fn zero_threads_set_no_pool() {
    assert_eq!(pool_threads(Some(0)), None);
    assert_eq!(pool_threads(Some(3)), Some(3));
    assert_eq!(pool_threads(None), None);
}

#[test]
fn skips_sandbox_blocked_dir_by_name() {
    let home = "/tmp/fake-home-scan";
    let path = format!("{home}/.grok/sandbox-blocked-dir.3");
    let config = Config::crate_defaults();
    assert_eq!(
        home_scan_skip_reason(home, &path, &config, None),
        Some("Grok OSS blocked sandbox directory")
    );
}

#[test]
fn does_not_skip_agents_trash_on_crate_defaults() {
    let home = "/tmp/fake-home-scan";
    let path = format!("{home}/.agents/trash");
    let config = Config::crate_defaults();
    assert_eq!(
        home_scan_skip_reason(home, &path, &config, None),
        None,
        "crate defaults must not skip ~/.agents/trash"
    );
    let reports = format!("{home}/.agents/reports");
    assert_eq!(home_scan_skip_reason(home, &reports, &config, None), None);
}

#[test]
fn skips_agents_trash_when_listed_in_skip_directories() {
    let home = "/tmp/fake-home-scan";
    let path = format!("{home}/.agents/trash");
    let mut config = Config::crate_defaults();
    config.scan.skip_directories = vec![format!("{home}/.agents/trash")];
    assert_eq!(
        home_scan_skip_reason(home, &path, &config, None),
        Some("skip_directories or system trash")
    );
    let nested = format!("{path}/ChatExport_trash");
    assert_eq!(
        home_scan_skip_reason(home, &nested, &config, None),
        Some("skip_directories or system trash")
    );
}

#[test]
fn skips_xdg_trash_on_crate_defaults() {
    let home = "/tmp/fake-home-scan";
    let config = Config::crate_defaults();
    let xdg = format!("{home}/.local/share/Trash/files/secret.json");
    assert_eq!(
        home_scan_skip_reason(home, &xdg, &config, None),
        Some("skip_directories or system trash")
    );
    let mount = format!("{home}/.Trash-1000/files");
    assert_eq!(
        home_scan_skip_reason(home, &mount, &config, None),
        Some("skip_directories or system trash")
    );
}

#[test]
fn the_memex_directory_is_no_source() {
    let home = "/tmp/fake-home-scan";
    let config = Config::crate_defaults();
    let path = format!("{home}/memex/agents/grok/personal.majestic");
    assert_eq!(
        home_scan_skip_reason(home, &path, &config, None),
        Some("$HOME/memex is the archive destination, not a source")
    );
}

#[test]
fn permission_denied_logs_at_error() {
    let mut denied = DeniedPaths::default();
    reset_permission_denied_count(&mut denied);
    let event = log_permission_denied(
        &mut denied,
        "/denied/path",
        IoKind::PermissionDenied,
        "Permission denied (os error 13)",
    );
    assert_eq!(event.level, Level::Error);
    assert!(
        event.message.contains("permission denied"),
        "permission denied must log at error, got {event:?}"
    );
    assert_ne!(
        event.level,
        Level::Info,
        "permission denied must not log at info, got {event:?}"
    );
    assert_eq!(denied.count, 1);
}

#[test]
fn default_console_filter_rejects_debug_and_warn() {
    assert!(default_console_allows(Level::Error));
    assert!(default_console_allows(Level::Info));
    assert!(!default_console_allows(Level::Warn));
    assert!(!default_console_allows(Level::Debug));
    assert!(!default_console_allows(Level::Trace));
    match console_filter_from_directive(None) {
        ConsoleFilter::Quiet => {}
        ConsoleFilter::Env(_) => panic!("default console filter must be quiet"),
    }
    match console_filter_from_directive(Some("info")) {
        ConsoleFilter::Quiet => {}
        ConsoleFilter::Env(_) => {
            panic!("config [log] filter = info must stay the quiet terminal")
        }
    }
    match console_filter_from_directive(Some("debug")) {
        ConsoleFilter::Env(_) => {}
        ConsoleFilter::Quiet => panic!("debug override must not be the quiet terminal"),
    }
}

#[test]
fn a_directive_that_does_not_parse_is_quiet() {
    match console_filter_from_directive(Some("majestic=loudest")) {
        ConsoleFilter::Quiet => {}
        ConsoleFilter::Env(text) => panic!("not a level, got {text}"),
    }
}

#[test]
fn expected_skip_of_trash_is_not_info() {
    let event = log_expected_skip("/home/u/.local/share/Trash", "system trash");
    assert_eq!(
        event.level,
        Level::Debug,
        "expected trash skip must log at debug, got {event:?}"
    );
    assert!(
        event.level != Level::Info && event.level != Level::Error,
        "expected trash skip must not log at info or error, got {event:?}"
    );
}

#[test]
fn syslog_identifier_is_memex() {
    assert_eq!(SYSLOG_IDENTIFIER, "memex");
}

#[test]
fn summary_records_last_permission_denied_count() {
    let mut denied = DeniedPaths::default();
    reset_permission_denied_count(&mut denied);
    emit_permission_denied_summary(&mut denied);
    assert_eq!(last_permission_denied_count(&denied), 0);
}

#[test]
fn many_denied_paths_end_in_one_summary() {
    let mut denied = DeniedPaths::default();
    for i in 0..3 {
        let event = log_permission_denied(
            &mut denied,
            &format!("/denied/{i}"),
            IoKind::PermissionDenied,
            "denied",
        );
        assert_eq!(event.console, i == 0, "the terminal shows the first one only");
    }
    let event = emit_permission_denied_summary(&mut denied).expect("summary");
    assert!(event.message.contains("permission denied on 3 paths"));
    assert_eq!(last_permission_denied_count(&denied), 3);
    assert_eq!(denied.count, 0);
}

#[test]
fn init_does_not_panic_when_called_twice() {
    init_from_directive(None, Some("info"));
    init_from_directive(None, Some("info"));
}

#[test]
fn tracing_init_does_not_panic() {
    init_from_directive(None, Some("info"));
    init_from_directive(None, Some("info"));
}

#[test]
fn the_environment_wins_over_the_configured_filter() {
    match init_from_directive(Some("debug"), Some("info")) {
        ConsoleFilter::Env(text) => assert_eq!(text, "debug"),
        ConsoleFilter::Quiet => panic!("the environment must win"),
    }
    match init(None) {
        ConsoleFilter::Quiet => {}
        ConsoleFilter::Env(text) => panic!("nothing is set, got {text}"),
    }
}

#[test]
fn cli_overlay_wins_over_the_file() {
    let mut config = Config::crate_defaults();
    config.memex_dir = "/from-file".to_owned();
    config.search.ignore_case = true;
    let overlay = CliOverlay {
        memex_dir: Some("/from-cli".to_owned()),
        ..CliOverlay::default()
    };
    config.overlay_cli(&overlay);
    assert_eq!(config.memex_dir, "/from-cli");
    assert!(config.search.ignore_case, "unpassed -i keeps the file");
}

#[test]
fn no_flag_changes_nothing() {
    let mut config = Config::crate_defaults();
    config.overlay_cli(&CliOverlay::default());
    let fresh = Config::crate_defaults();
    assert_eq!(config.memex_dir, fresh.memex_dir);
    assert_eq!(config.serve.bind, fresh.serve.bind);
    assert_eq!(config.search.max_count, fresh.search.max_count);
}

#[test]
fn the_configuration_file_is_found() {
    assert_eq!(
        config_file_path_from(None, None, Some("/home/u")),
        "/home/u/.config/majestic/memex.toml"
    );
    assert_eq!(
        config_file_path_from(None, Some("/cfg"), Some("/home/u")),
        "/cfg/majestic/memex.toml"
    );
    assert_eq!(
        config_file_path_from(Some("~/m.toml"), Some("/cfg"), Some("/home/u")),
        "/home/u/m.toml"
    );
}

#[test]
fn a_leading_tilde_expands_once() {
    assert_eq!(expand_tilde("~/memex", "/home/u"), "/home/u/memex");
    assert_eq!(expand_tilde("~", "/home/u"), "/home/u");
    assert_eq!(expand_tilde("/a/~/b", "/home/u"), "/a/~/b");
    let once = expand_tilde("~/x", "/home/u");
    assert_eq!(expand_tilde(&once, "/home/u"), once);
}

#[test]
fn scoped_paths_stay_inside() {
    assert_eq!(
        scoped_archive_path("/m", "agents/grok", "personal").expect("path"),
        "/m/agents/grok/personal.majestic"
    );
    for bad in ["", "..", "/abs", "a/../b"] {
        assert!(
            matches!(
                scoped_archive_path("/m", bad, "personal"),
                Err(Error::InvalidScope(_))
            ),
            "service {bad:?}"
        );
    }
    assert!(matches!(
        scoped_archive_path("/m", "agents/grok", ".."),
        Err(Error::InvalidScope(_))
    ));
}

#[test]
fn home_needs_a_value() {
    assert_eq!(home_dir(Some("/home/u")).expect("set"), "/home/u");
    assert!(matches!(home_dir(None), Err(Error::HomeUnset)));
    assert!(matches!(home_dir(Some("")), Err(Error::HomeUnset)));
    assert_eq!(default_memex_dir("/home/u"), "/home/u/memex");
}

#[test]
fn a_home_scan_takes_no_output_and_no_scope() {
    let none: Vec<String> = Vec::new();
    match ingest_from_flags(Some("/o.majestic"), None, None, &none) {
        Err(Error::Ingest(text)) => {
            assert_eq!(text, "home scan writes many archives; do not pass -o")
        }
        _ => panic!("-o with a home scan"),
    }
    match ingest_from_flags(None, Some("agents/grok"), None, &none) {
        Err(Error::Ingest(text)) => assert_eq!(
            text,
            "home scan always infers per source; pass explicit paths to force those flags"
        ),
        _ => panic!("--service with a home scan"),
    }
    assert!(matches!(
        ingest_from_flags(None, None, None, &none),
        Ok(IngestPlan::Home)
    ));
}
