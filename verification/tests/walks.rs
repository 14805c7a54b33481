use std::cell::RefCell;
use std::collections::BTreeMap;

use majestic::config::Config;
use majestic::copies::{filter_duplicate_sources, Contents};
use majestic::discover::{
    discover_sources, find_grok_backends, telegram_result_in_dir, walk_sources, Disk, Entry,
};
use majestic::files::{files_in_tree, wanted_files, Wants};
use majestic::hash::hash_bytes;
use majestic::infer::{InferredScope, Shape};
use majestic::notes::{collect_markdown_files, dir_has_markdown};
use majestic::scan::{home_scan_skip_reason, IngestSource, NodeKind, SourceKind, WALK_DEPTH};
use majestic::scopes::{
    infer_grok_export_scope, infer_ingest_scope_at_path, infer_ingest_scope_in, Names,
};
use majestic::sources::PayloadPart;
use majestic::walk::{discover_home_export_paths, Fact, HomeDisk, Scan};
use majestic::zip::{is_zip_path, ZipKind};
use majestic::{Error, IoKind};

/// A disk in memory: what each path is, and what holds of it.
struct Tree {
    nodes: BTreeMap<String, NodeKind>,
    facts: Vec<(Fact, String)>,
}

fn parent(path: &str) -> String {
    match path.rfind('/') {
        Some(0) | None => "/".to_owned(),
        Some(at) => path[..at].to_owned(),
    }
}

impl Tree {
    fn new(files: &[&str]) -> Tree {
        let mut tree = Tree {
            nodes: BTreeMap::new(),
            facts: Vec::new(),
        };
        for file in files {
            tree.add(file, NodeKind::File);
        }
        tree
    }

    fn add(&mut self, path: &str, kind: NodeKind) {
        self.nodes.insert(path.to_owned(), kind);
        let mut dir = parent(path);
        while dir != "/" {
            self.nodes.insert(dir.clone(), NodeKind::Directory);
            dir = parent(&dir);
        }
    }

    fn with(mut self, fact: Fact, path: &str) -> Tree {
        self.facts.push((fact, path.to_owned()));
        self
    }

    fn entries(&self, dir: &str) -> Vec<Entry> {
        self.nodes
            .iter()
            .filter(|(path, _)| parent(path) == dir)
            .map(|(path, kind)| Entry {
                path: path.clone(),
                kind: *kind,
            })
            .collect()
    }

    fn is(&self, fact: Fact, path: &str) -> bool {
        match fact {
            Fact::File => self.nodes.get(path) == Some(&NodeKind::File),
            Fact::Folder | Fact::OwnFolder => self.nodes.get(path) == Some(&NodeKind::Directory),
            _ => self.facts.contains(&(fact, path.to_owned())),
        }
    }

    fn disk(
        &self,
    ) -> Disk<
        impl Fn(&str) -> Result<NodeKind, Error> + '_,
        impl Fn(&str) -> Result<Vec<Entry>, Error> + '_,
        impl Fn(Fact, &str) -> Result<bool, Error> + '_,
    > {
        Disk {
            node: |path: &str| match self.nodes.get(path) {
                Some(kind) => Ok(*kind),
                None => Err(missing()),
            },
            entries: |dir: &str| {
                if dir.ends_with("/locked") {
                    Err(missing())
                } else {
                    Ok(self.entries(dir))
                }
            },
            is: |fact: Fact, path: &str| Ok(self.is(fact, path)),
        }
    }

    fn names(
        &self,
    ) -> Names<
        impl Fn(&str) -> Option<ZipKind> + '_,
        impl Fn(&str) -> Result<Option<String>, Error> + '_,
        impl Fn(Shape, &str) -> Result<Option<String>, Error> + '_,
    > {
        Names {
            zip: |path: &str| {
                if self.is(Fact::KnownZip, path) {
                    Some(ZipKind::Twitter)
                } else {
                    None
                }
            },
            auth: |backend: &str| {
                Ok(if backend.contains("anon") {
                    None
                } else if backend.contains("other") {
                    Some("other".to_owned())
                } else {
                    Some("ada".to_owned())
                })
            },
            own: |shape: Shape, _path: &str| {
                Ok(match shape {
                    Shape::Twitter => Some("xname".to_owned()),
                    _ => None,
                })
            },
            user: Some("me".to_owned()),
            username: None,
        }
    }
}

fn missing() -> Error {
    Error::Io(IoKind::NotFound, "gone".to_owned())
}

fn scan(config: &Config) -> Scan<'_> {
    Scan {
        home: "/h",
        config,
        xdg: None,
    }
}

fn home_scan(tree: &Tree, config: &Config) -> (Vec<String>, Vec<(String, String)>) {
    let skipped = RefCell::new(Vec::new());
    let allow = |path: &str| {
        assert!(
            path == "/h"
                || path.ends_with("/.grok/sessions")
                || home_scan_skip_reason("/h", path, config, None).is_none(),
            "asked about {path}"
        );
    };
    let disk = HomeDisk {
        list: |dir: &str| {
            allow(dir);
            tree.entries(dir).into_iter().map(|entry| entry.path).collect()
        },
        kind: |path: &str| {
            allow(path);
            tree.nodes.get(path).copied()
        },
        is: |fact: Fact, path: &str| {
            allow(path);
            tree.is(fact, path)
        },
        skip: |path: &str, why: &str| {
            skipped.borrow_mut().push((path.to_owned(), why.to_owned()));
        },
    };
    let found = discover_home_export_paths(&disk, scan(config));
    drop(disk);
    (found, skipped.into_inner())
}

#[test]
fn skip_by_name_does_not_read_dir_mode_000_sandbox_or_skip_list() {
    let tree = Tree::new(&[
        "/h/.grok/sandbox-blocked-dir.9/secret.json",
        "/h/sandbox-blocked-dir.1/secret.json",
        "/h/.agents/trash/backup/old.json",
        "/h/.grok/sessions/session_search.sqlite",
    ]);
    let mut config = Config::crate_defaults();
    config.scan.skip_directories = vec!["/h/.agents/trash".to_owned()];
    let (found, skipped) = home_scan(&tree, &config);
    assert!(
        found.is_empty(),
        "skip dirs and empty sqlite must not be sources, got {found:?}"
    );
    for (path, why) in [
        ("/h/sandbox-blocked-dir.1", "Grok OSS blocked sandbox directory"),
        ("/h/.agents/trash", "skip_directories or system trash"),
        (
            "/h/.grok/sessions/session_search.sqlite",
            "empty sqlite file or no session_docs table",
        ),
    ] {
        assert!(
            skipped.contains(&(path.to_owned(), why.to_owned())),
            "{path}: {skipped:?}"
        );
    }
}

#[test]
fn a_home_scan_finds_known_exports() {
    let mut tree = Tree::new(&[
        "/h/b/prod-grok-backend.json",
        "/h/a/result.json",
        "/h/.grok/sessions/session_search.sqlite",
        "/h/.grok/notes/prod-grok-backend.json",
        "/h/z/known.zip",
        "/h/z/other.zip",
        "/h/vault/deep/result.json",
        "/h/memex/x/result.json",
        "/h/.agents/reports/r.md",
    ])
    .with(Fact::KnownZip, "/h/z/known.zip")
    .with(Fact::SessionIndex, "/h/.grok/sessions/session_search.sqlite")
    .with(Fact::Obsidian, "/h/vault");
    tree.add("/h/link", NodeKind::Symlink);
    let config = Config::crate_defaults();
    let (found, skipped) = home_scan(&tree, &config);
    assert_eq!(
        found,
        [
            "/h/.agents/reports",
            "/h/.grok/sessions/session_search.sqlite",
            "/h/a/result.json",
            "/h/b/prod-grok-backend.json",
            "/h/vault",
            "/h/z/known.zip",
        ]
    );
    assert!(skipped.contains(&("/h/link".to_owned(), "symlink".to_owned())));
    let mut shallow = Config::crate_defaults();
    shallow.scan.home_scan_max_depth = 0;
    assert!(home_scan(&tree, &shallow).0.is_empty());
}

#[test]
fn a_home_scan_goes_no_deeper_than_its_limit() {
    let index = "/h/.grok/sessions/session_search.sqlite";
    let tree = Tree::new(&[index, "/h/a/result.json", "/h/a/b/result.json"])
        .with(Fact::SessionIndex, index);
    let mut config = Config::crate_defaults();
    config.scan.home_scan_max_depth = 1;
    assert_eq!(home_scan(&tree, &config).0, ["/h/a/result.json"]);
    config.scan.home_scan_max_depth = 2;
    assert_eq!(
        home_scan(&tree, &config).0,
        [index, "/h/a/b/result.json", "/h/a/result.json"]
    );
}

#[test]
fn a_decided_file_is_not_asked_for_story_cards() {
    let config = Config::crate_defaults();
    let asked = RefCell::new(Vec::new());
    let kind_of = |input: &str, telegram: bool| {
        asked.borrow_mut().clear();
        let disk = Disk {
            node: |_: &str| Ok(NodeKind::File),
            entries: |_: &str| Ok(Vec::new()),
            is: |fact: Fact, _: &str| {
                asked.borrow_mut().push(fact);
                match fact {
                    Fact::StoryCards => Err(missing()),
                    Fact::Telegram => Ok(telegram),
                    _ => Ok(false),
                }
            },
        };
        discover_sources(&disk, scan(&config), input, "/d").map(|found| found[0].kind)
    };
    assert_eq!(kind_of("/d/result.json", true).ok(), Some(SourceKind::Telegram));
    assert_eq!(
        kind_of("/d/conversations.json", false).ok(),
        Some(SourceKind::ChatGpt)
    );
    assert!(!asked.borrow().contains(&Fact::StoryCards));
    assert!(kind_of("/d/cards.json", false).is_err());
    assert!(asked.borrow().contains(&Fact::StoryCards));
}

#[test]
fn backend_files_are_found_in_a_dump() {
    let config = Config::crate_defaults();
    let s = scan(&config);
    let find = |tree: &Tree, input: &str| find_grok_backends(&tree.disk(), s, input);
    let direct = Tree::new(&["/d/prod-grok-backend.json", "/d/a/prod-grok-backend.json"]);
    assert_eq!(find(&direct, "/d").expect("own"), ["/d/prod-grok-backend.json"]);
    assert_eq!(
        find(&direct, "/d/prod-grok-backend.json").expect("file"),
        ["/d/prod-grok-backend.json"]
    );
    let official = Tree::new(&[
        "/d/ttl/30d/export_data/u1/prod-grok-backend.json",
        "/d/ttl/30d/export_data/u2/prod-grok-backend.json",
        "/d/a/prod-grok-backend.json",
    ]);
    assert_eq!(
        find(&official, "/d").expect("official"),
        [
            "/d/ttl/30d/export_data/u1/prod-grok-backend.json",
            "/d/ttl/30d/export_data/u2/prod-grok-backend.json",
        ]
    );
    let nested = Tree::new(&[
        "/d/a/b/prod-grok-backend.json",
        "/d/a/b/c/prod-grok-backend.json",
        "/d/assets/prod-grok-backend.json",
        "/d/ChatExport_1/prod-grok-backend.json",
        "/d/ChatExport_1/result.json",
    ]);
    assert_eq!(find(&nested, "/d").expect("nested"), ["/d/a/b/prod-grok-backend.json"]);
    assert!(find(&nested, "/d/ChatExport_1").expect("telegram").is_empty());
    assert!(matches!(find(&nested, "/none"), Err(Error::Io(_, _))));
    let locked = Tree::new(&["/d/locked/x", "/d/z/prod-grok-backend.json"]);
    assert!(matches!(find(&locked, "/d"), Err(Error::Io(_, _))));
}

fn sources(tree: &Tree, input: &str) -> Result<Vec<(SourceKind, String)>, Error> {
    let config = Config::crate_defaults();
    let found = discover_sources(&tree.disk(), scan(&config), input, &parent(input))?;
    Ok(found
        .into_iter()
        .map(|source| (source.kind, source.path))
        .collect())
}

fn one(kind: SourceKind, path: &str) -> Vec<(SourceKind, String)> {
    vec![(kind, path.to_owned())]
}

#[test]
fn an_input_file_is_a_source_by_its_name() {
    let tree = Tree::new(&[
        "/d/a.md",
        "/d/a.zip",
        "/d/a.jsonl",
        "/d/result.json",
        "/d/c/conversations.json",
        "/d/cards.json",
        "/d/kit.toml",
        "/d/store.db",
        "/d/any.json",
        "/e/result.json",
    ])
    .with(Fact::Telegram, "/d/result.json")
    .with(Fact::InChatGpt, "/d/c/conversations.json")
    .with(Fact::StoryCards, "/d/cards.json")
    .with(Fact::SessionIndex, "/d/store.db");
    for (path, kind, source) in [
        ("/d/a.md", SourceKind::Markdown, "/d/a.md"),
        ("/d/a.zip", SourceKind::Zip, "/d/a.zip"),
        ("/d/a.jsonl", SourceKind::SessionJsonl, "/d/a.jsonl"),
        ("/d/result.json", SourceKind::Telegram, "/d/result.json"),
        ("/d/c/conversations.json", SourceKind::ChatGpt, "/d/c"),
        ("/d/cards.json", SourceKind::StoryCards, "/d/cards.json"),
        ("/d/kit.toml", SourceKind::Characters, "/d/kit.toml"),
        ("/d/store.db", SourceKind::Sqlite, "/d/store.db"),
        ("/d/any.json", SourceKind::Backend, "/d/any.json"),
    ] {
        assert_eq!(sources(&tree, path).expect(path), one(kind, source));
    }
    assert!(matches!(sources(&tree, "/e/result.json"), Err(Error::Ingest(_))));
    let mut other = Tree::new(&[]);
    other.add("/d/pipe", NodeKind::Other);
    match sources(&other, "/d/pipe") {
        Err(Error::Ingest(message)) => assert_eq!(message, "not a file or directory: /d/pipe"),
        _ => panic!("a pipe"),
    }
}

#[test]
fn a_folder_is_a_source_by_the_first_question() {
    let tree = Tree::new(&["/d/chat_history.jsonl", "/d/x.md"]).with(Fact::Markdown, "/d");
    assert_eq!(sources(&tree, "/d").expect("markdown"), one(SourceKind::Markdown, "/d"));
    let tree = tree.with(Fact::Facebook, "/d");
    assert_eq!(sources(&tree, "/d").expect("facebook"), one(SourceKind::Facebook, "/d"));
    let tree = Tree::new(&["/d/chat_history.jsonl"]);
    assert_eq!(sources(&tree, "/d").expect("session"), one(SourceKind::SessionDir, "/d"));
    let chat = Tree::new(&[
        "/d/ChatExport_1/result.json",
        "/d/ChatExport_1/prod-grok-backend.json",
    ]);
    assert_eq!(
        sources(&chat, "/d/ChatExport_1").expect("telegram"),
        one(SourceKind::Telegram, "/d/ChatExport_1/result.json")
    );
    let found = telegram_result_in_dir(&chat.disk(), "/d/ChatExport_1").expect("document");
    assert_eq!(found, ["/d/ChatExport_1/result.json"]);
    let plain = Tree::new(&["/d/other/result.json"]);
    assert!(telegram_result_in_dir(&plain.disk(), "/d/other").expect("none").is_empty());
}

#[test]
fn a_dump_is_walked_for_sources() {
    let tree = Tree::new(&[
        "/d/1/result.json",
        "/d/2/chat_history.jsonl",
        "/d/3/known.zip",
        "/d/3/other.zip",
        "/d/assets/result.json",
        "/d/ChatExport_9/result.json",
    ])
    .with(Fact::Telegram, "/d/1/result.json")
    .with(Fact::KnownZip, "/d/3/known.zip");
    assert_eq!(
        sources(&tree, "/d").expect("dump"),
        vec![
            (SourceKind::Telegram, "/d/1/result.json".to_owned()),
            (SourceKind::SessionDir, "/d/2".to_owned()),
            (SourceKind::Zip, "/d/3/known.zip".to_owned()),
            (SourceKind::Telegram, "/d/ChatExport_9/result.json".to_owned()),
        ]
    );
    let config = Config::crate_defaults();
    let disk = tree.disk();
    assert!(walk_sources(&disk, scan(&config), "/d", 0).expect("no level").is_empty());
    assert_eq!(
        walk_sources(&disk, scan(&config), "/d", WALK_DEPTH).expect("levels").len(),
        4
    );
    let locked = Tree::new(&["/d/locked/x"]);
    assert!(matches!(sources(&locked, "/d"), Err(Error::Io(_, _))));
}

fn scope(service: &str, account: &str) -> InferredScope {
    InferredScope {
        service: service.to_owned(),
        account: account.to_owned(),
    }
}

#[test]
fn an_input_has_the_scope_of_its_shape() {
    let tree = Tree::new(&[
        "/g/prod-grok-backend.json",
        "/x/a",
        "/m/Notes/a.md",
        "/z/a.zip",
        "/z/b.zip",
        "/s/session_search.sqlite",
    ])
    .with(Fact::Twitter, "/x")
    .with(Fact::Markdown, "/m/Notes")
    .with(Fact::KnownZip, "/z/a.zip");
    let config = Config::crate_defaults();
    let s = scan(&config);
    for (input, service, account) in [
        ("/g", "agents/grok", "ada"),
        ("/g/prod-grok-backend.json", "agents/grok", "ada"),
        ("/x", "social/x", "xname"),
        ("/m/Notes", "notes/markdown", "Notes"),
        ("/z/a.zip", "social/x", "xname"),
        ("/s/session_search.sqlite", "agents/grok-oss", "me"),
    ] {
        let found = infer_ingest_scope_at_path(&tree.disk(), s, &tree.names(), input);
        let want = scope(service, account);
        let found = found.expect(input);
        assert_eq!((found.service, found.account), (want.service, want.account));
    }
    for input in ["/z/b.zip", "/z"] {
        assert!(matches!(
            infer_ingest_scope_at_path(&tree.disk(), s, &tree.names(), input),
            Err(Error::NotGrokExport)
        ));
    }
    let found = infer_grok_export_scope(&tree.disk(), s, &tree.names(), "/g").expect("grok");
    assert_eq!(found.service, "agents/grok");
    let anon = Tree::new(&["/anon/prod-grok-backend.json"]);
    assert!(matches!(
        infer_grok_export_scope(&anon.disk(), s, &anon.names(), "/anon"),
        Err(Error::MissingXUsername)
    ));
    let two = Tree::new(&[
        "/d/a/prod-grok-backend.json",
        "/d/other/prod-grok-backend.json",
    ]);
    assert!(matches!(
        infer_grok_export_scope(&two.disk(), s, &two.names(), "/d"),
        Err(Error::AccountDisagree)
    ));
}

#[test]
fn a_dump_has_the_scope_on_which_its_sources_agree() {
    let config = Config::crate_defaults();
    let s = scan(&config);
    let tree = Tree::new(&["/d/1/a", "/d/2/a", "/d/3/chat_history.jsonl"])
        .with(Fact::Twitter, "/d/1")
        .with(Fact::Twitter, "/d/2");
    let found = infer_ingest_scope_in(&tree.disk(), s, &tree.names(), "/d", "/").expect("agree");
    assert_eq!(found.service, "social/x");
    let tree = tree.with(Fact::ChatGpt, "/d/2");
    assert!(matches!(
        infer_ingest_scope_in(&tree.disk(), s, &tree.names(), "/d", "/"),
        Err(Error::AccountDisagree)
    ));
    let none = Tree::new(&["/d/3/chat_history.jsonl"]);
    assert!(matches!(
        infer_ingest_scope_in(&none.disk(), s, &none.names(), "/d", "/"),
        Err(Error::NotGrokExport)
    ));
}

#[test]
fn wanted_files_are_in_path_order() {
    let tree = Tree::new(&[
        "/d/conversations-2.json",
        "/d/conversations.json",
        "/d/user.json",
        "/d/p/b.JPG",
        "/d/p/q/a.png",
        "/d/tweets.js",
        "/d/account.js",
        "/d/kit.toml",
    ]);
    assert_eq!(
        wanted_files(Wants::Conversations, &tree.entries("/d")),
        ["/d/conversations-2.json", "/d/conversations.json"]
    );
    assert_eq!(wanted_files(Wants::XPayload, &tree.entries("/d")), ["/d/tweets.js"]);
    assert_eq!(wanted_files(Wants::Characters, &tree.entries("/d")), ["/d/kit.toml"]);
    let disk = tree.disk();
    assert_eq!(
        files_in_tree(&disk.entries, Wants::Images, &vec!["/d".to_owned()]).expect("images"),
        ["/d/p/b.JPG", "/d/p/q/a.png"]
    );
    let twice = vec!["/d/p".to_owned(), "/d".to_owned()];
    assert_eq!(
        files_in_tree(&disk.entries, Wants::Images, &twice).expect("once").len(),
        2
    );
    assert_eq!(
        files_in_tree(&disk.entries, Wants::Json, &vec!["/d".to_owned()]).expect("json").len(),
        3
    );
    assert!(files_in_tree(&disk.entries, Wants::Json, &vec!["/d/locked".to_owned()]).is_err());
}

#[test]
fn copies_of_exports_are_left_out() {
    let hashed = RefCell::new(Vec::new());
    let contents = Contents {
        zip: |path: &str| {
            if path.contains("fb") {
                Some(ZipKind::Facebook)
            } else if is_zip_path(path) {
                Some(ZipKind::Grok)
            } else {
                None
            }
        },
        size: |path: &str| Ok(if path.contains("big") { 2 } else { 1 }),
        digest: |part: PayloadPart, path: &str| {
            hashed.borrow_mut().push(path.to_owned());
            if path.contains("broken") {
                return Err(missing());
            }
            assert!(part == PayloadPart::File || part == PayloadPart::BackendEntry);
            Ok(Some(hash_bytes(if path.contains("new") { b"n" } else { b"o" })))
        },
    };
    let source = |kind: SourceKind, path: &str| IngestSource {
        kind,
        path: path.to_owned(),
    };
    let given = vec![
        source(SourceKind::Backend, "/a.json"),
        source(SourceKind::Zip, "/a.zip"),
        source(SourceKind::Backend, "/b.json"),
        source(SourceKind::Zip, "/fb1.zip"),
        source(SourceKind::Zip, "/fb2.zip"),
        source(SourceKind::Zip, "/fb-big.zip"),
        source(SourceKind::Zip, "/fb-new.zip"),
        source(SourceKind::Markdown, "/m"),
    ];
    let kept = filter_duplicate_sources(&contents, &given).expect("kept");
    let paths: Vec<&str> = kept.iter().map(|source| source.path.as_str()).collect();
    assert_eq!(
        paths,
        ["/a.json", "/b.json", "/fb1.zip", "/fb-big.zip", "/fb-new.zip", "/m"]
    );
    assert!(!hashed.borrow().contains(&"/fb-big.zip".to_owned()));
    let broken = vec![source(SourceKind::Backend, "/broken.json")];
    assert!(matches!(
        filter_duplicate_sources(&contents, &broken),
        Err(Error::Io(_, _))
    ));
}

#[test]
fn markdown_files_are_found_at_any_depth() {
    let config = Config::crate_defaults();
    let mut tree = Tree::new(&[
        "/n/z.md",
        "/n/a/b/c/d/e/f/g/h/i/j/deep.md",
        "/n/a/x.txt",
        "/n/only/x.txt",
    ]);
    tree.add("/n/link.md", NodeKind::Symlink);
    let entries = |dir: &str| Ok(tree.entries(dir));
    let s = scan(&config);
    assert_eq!(
        collect_markdown_files(&entries, s, "/n", false).expect("tree"),
        ["/n/a/b/c/d/e/f/g/h/i/j/deep.md", "/n/z.md"]
    );
    assert_eq!(
        collect_markdown_files(&entries, s, "/n/z.md", true).expect("file"),
        ["/n/z.md"]
    );
    assert!(collect_markdown_files(&entries, s, "/n/a/x.txt", true)
        .expect("no note")
        .is_empty());
    assert!(dir_has_markdown(&entries, s, "/n/a").expect("below"));
    assert!(!dir_has_markdown(&entries, s, "/n/only").expect("none"));
}

#[test]
fn an_unreadable_folder_stops_a_markdown_walk() {
    let config = Config::crate_defaults();
    let tree = Tree::new(&["/n/a/x.md", "/n/locked/y.md"]);
    let disk = tree.disk();
    let s = scan(&config);
    assert!(collect_markdown_files(&disk.entries, s, "/n", false).is_err());
    assert!(dir_has_markdown(&disk.entries, s, "/n").is_err());
    assert!(dir_has_markdown(&disk.entries, s, "/n/a").expect("readable"));
    let tree = Tree::new(&["/n/locked/y.md", "/n/x.md"]);
    let disk = tree.disk();
    assert!(dir_has_markdown(&disk.entries, s, "/n").expect("found before"));
}
