use majestic::archive::{write_archive_with_text_align, Archive, TextSpan};
use majestic::config::Config;
use majestic::hash::pack_blob;
use majestic::infer::{fits_shape, Shape, ShapeFacts};
use majestic::report::{SearchExec, SearchStatus, SearchStatusSink};
use majestic::scan::{discover_dir_probes, walk_backends_enters, walk_sources_probes, Probe};
use majestic::search::SearchFlags;
use majestic::systemwide::{
    search_all_archives, search_all_archives_with_status, search_default, search_default_exec,
    search_listed_archives, write_default_search, write_search_all, OpenedArchive,
};
use majestic::zip::ZipKind;
use majestic::Error;

fn file_of(text: &str) -> Vec<u8> {
    let span = TextSpan {
        text_off: 0,
        len: text.len() as u64,
        record_kind: 2,
        record_index: 0,
        field_id: 3,
    };
    write_archive_with_text_align(
        b"payload",
        text.as_bytes(),
        &[span],
        &pack_blob(Vec::new()),
        false,
    )
    .expect("file")
}

fn opened<'a>(path: &str, id: &str, bytes: &'a [u8]) -> OpenedArchive<'a> {
    OpenedArchive {
        path: path.to_owned(),
        archive: Archive::open(path, bytes).expect("open"),
        ids: vec![Some(id.to_owned())],
    }
}

fn damaged(text: &str) -> Vec<u8> {
    let mut bytes = file_of(text);
    let off = Archive::open("/m/x.majestic", &bytes)
        .expect("open")
        .text_file_offset() as usize;
    bytes[off] = 0xff;
    bytes
}

#[test]
fn one_bad_archive_does_not_stop_a_search() {
    let (a, b, bad) = (
        file_of("hello lizard"),
        file_of("the lizard sleeps"),
        damaged("lizard"),
    );
    let archives = vec![
        opened("/m/b.majestic", "cb", &b),
        opened("/m/bad.majestic", "cx", &bad),
        opened("/m/a.majestic", "ca", &a),
    ];
    let run = search_listed_archives("/m", &archives, "lizard", SearchFlags::default())
        .expect("search");
    assert_eq!(run.groups.len(), 2);
    assert_eq!(run.groups[0].path, "/m/a.majestic");
    assert_eq!(run.groups[1].path, "/m/b.majestic");
    assert_eq!(run.unreadable.len(), 1);
    assert_eq!(run.unreadable[0].0, "/m/bad.majestic");
    assert!(matches!(run.unreadable[0].1, Error::InvalidArchive));
}

#[test]
fn every_archive_is_searched() {
    let (a, b) = (file_of("hello lizard"), file_of("nothing here"));
    let archives = vec![
        opened("/m/a.majestic", "ca", &a),
        opened("/m/b.majestic", "cb", &b),
    ];
    let groups = search_default("/m", &archives, "LIZARD", true).expect("caseless");
    assert_eq!(groups.len(), 2);
    assert_eq!(groups[0].hits.len(), 1);
    assert!(groups[1].hits.is_empty());
    let pairs = search_all_archives("/m", &archives, "LIZARD", false).expect("exact case");
    assert!(pairs.iter().all(|(_, hits)| hits.is_empty()));
    let pairs = search_all_archives("/m", &archives, "lizard", false).expect("pairs");
    assert_eq!(pairs[0].0, "/m/a.majestic");
    assert_eq!(pairs[0].1[0].conversation_id.as_deref(), Some("ca"));
}

#[test]
fn a_bad_pattern_fails_before_any_archive_is_read() {
    let exec = SearchExec::from(SearchFlags::default());
    assert!(matches!(
        search_default_exec("/m", &Vec::new(), "/(/", exec),
        Err(Error::InvalidPattern(_))
    ));
    assert!(matches!(
        search_default_exec("/m", &Vec::new(), "", exec),
        Err(Error::EmptyPattern)
    ));
    let mut sink = SearchStatusSink::new();
    assert!(search_all_archives_with_status(
        "/m",
        &Vec::new(),
        "/(/",
        SearchFlags::default(),
        &mut sink
    )
    .is_err());
    assert!(sink.events().is_empty());
}

#[test]
fn a_search_of_all_archives_records_its_status() {
    let (a, b) = (file_of("lizard one"), file_of("lizard two"));
    let archives = vec![
        opened("/m/a.majestic", "ca", &a),
        opened("/m/agents/b.majestic", "cb", &b),
    ];
    let mut sink = SearchStatusSink::new();
    let pairs = search_all_archives_with_status(
        "/m",
        &archives,
        "lizard",
        SearchFlags::default(),
        &mut sink,
    )
    .expect("search");
    assert_eq!(pairs.len(), 2);
    let events = sink.events();
    assert_eq!(events.len(), 3);
    assert!(matches!(events[0], SearchStatus::Starting { archives: 2 }));
    match &events[2] {
        SearchStatus::Archive {
            completed,
            total,
            archive,
            unique_hits,
        } => {
            assert_eq!((*completed, *total, *unique_hits), (2, 2, 2));
            assert_eq!(archive, "agents/b.majestic");
        }
        _ => panic!("an archive"),
    }
}

#[test]
fn the_same_body_in_two_archives_is_printed_once() {
    let (a, b) = (file_of("same lizard"), file_of("same lizard"));
    let archives = vec![
        opened("/m/a.majestic", "ca", &a),
        opened("/m/b.majestic", "cb", &b),
    ];
    let (report, shown) = write_search_all("/m", &archives, "lizard", false).expect("report");
    assert_eq!(shown, 1);
    assert_eq!(report.matches("same lizard").count(), 1, "{report}");
    assert!(report.contains("a.majestic"), "{report}");
    assert!(report.contains("b.majestic"), "{report}");
    let (again, _) = write_default_search("/m", &archives, "lizard", false).expect("alias");
    assert_eq!(again, report);
}

fn no_facts() -> ShapeFacts {
    ShapeFacts {
        is_file: false,
        is_dir: false,
        zip: None,
        chatgpt: false,
        in_chatgpt: false,
        facebook: false,
        twitter: false,
        telegram: false,
        backends: false,
        obsidian: false,
        session_docs: false,
        markdown: false,
    }
}

#[test]
fn shapes_fit_what_they_describe() {
    let file = ShapeFacts {
        is_file: true,
        ..no_facts()
    };
    let dir = ShapeFacts {
        is_dir: true,
        ..no_facts()
    };
    assert!(fits_shape(Shape::ChatGpt, "/d/conversations-000.json", file));
    assert!(!fits_shape(Shape::ChatGpt, "/d/user.json", file));
    assert!(fits_shape(
        Shape::ChatGpt,
        "/d/user.json",
        ShapeFacts {
            in_chatgpt: true,
            ..file
        }
    ));
    assert!(fits_shape(
        Shape::ChatGpt,
        "/d/x.zip",
        ShapeFacts {
            zip: Some(ZipKind::ChatGpt),
            ..file
        }
    ));
    assert!(fits_shape(Shape::Zip, "/d/x.zip", file));
    assert!(!fits_shape(Shape::Zip, "/d/x.zip", dir));
    assert!(fits_shape(Shape::BackendFile, "/d/prod-grok-backend.json", file));
    assert!(fits_shape(Shape::Telegram, "/d/ChatExport_2026", dir));
    assert!(!fits_shape(Shape::Telegram, "/d/other", dir));
    assert!(fits_shape(Shape::Reports, "/h/.agents/reports", dir));
    assert!(fits_shape(Shape::Markdown, "/d/a.MD", file));
    assert!(!fits_shape(Shape::Markdown, "/d", dir));
}

#[test]
fn the_grok_oss_database_is_no_session_index() {
    let facts = ShapeFacts {
        is_file: true,
        session_docs: true,
        ..no_facts()
    };
    assert!(!fits_shape(Shape::SessionSqlite, "/h/.grok/grok_oss.db", facts));
    assert!(fits_shape(Shape::SessionSqlite, "/h/.grok/other.db", facts));
}

#[test]
fn a_chat_export_is_never_a_grok_export() {
    let dir = "/d/ChatExport_2026-05-06";
    let config = Config::crate_defaults();
    assert_eq!(discover_dir_probes(dir, true), [Probe::Telegram]);
    assert_eq!(walk_sources_probes(dir, true), [Probe::Telegram]);
    assert!(!walk_backends_enters(dir, true, "/h", &config, None));
    assert_eq!(discover_dir_probes(dir, false)[0], Probe::Backends);
    assert!(walk_backends_enters(dir, false, "/h", &config, None));
    assert!(walk_backends_enters("/d/dump", true, "/h", &config, None));
}
