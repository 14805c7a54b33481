use majestic::archive::{
    align_up_to_text_page, parse_bao_region, tmp_beside, write_archive,
    write_archive_with_text_align, Archive, TextSpan, FIELD_MESSAGE, FIELD_TITLE,
    RECORD_CONVERSATION, RECORD_RESPONSE, TEXT_PAGE_BYTES,
};
use majestic::catalog::{write_stats, ArchiveRoot, ExportManifest};
use majestic::codec::{encode_responses, hash_item, hash_response, hash_responses};
use majestic::grep::{gather_hits, place_matches, search, search_query, search_with};
use majestic::hash::{blob_slice, hash_bytes, hash_range, pack_blob};
use majestic::index::{pack_tries, words_of};
use majestic::ingest::{hash_asset, hashed_facebook_image, Accumulator};
use majestic::records::{Conversation, ConversationItem, Response, ResponseItem};
use majestic::report::{write_search, write_search_exec, SearchExec, SearchFormat};
use majestic::schema::{ExtraMap, JsonAtom};
use majestic::search::SearchFlags;
use majestic::spans::build_text;
use majestic::trie::TriesHeader;
use majestic::zstd_file::{compress_to_zst, decompress_zst};
use majestic::Error;

fn encode_item(item: &ConversationItem) -> Result<Vec<u8>, Error> {
    Ok(format!("{item:?}").into_bytes())
}

fn encode_response(item: &ResponseItem) -> Result<Vec<u8>, Error> {
    Ok(format!("{item:?}").into_bytes())
}

fn refuse_item(_item: &ConversationItem) -> Result<Vec<u8>, Error> {
    Err(Error::Ingest("no encoding".to_owned()))
}

fn said(id: &str, text: &str) -> ResponseItem {
    ResponseItem {
        response: Response {
            _id: Some(id.to_owned()),
            message: Some(JsonAtom::String(text.to_owned())),
            ..Default::default()
        },
        share_link: None,
        extra: ExtraMap::new(),
    }
}

fn talk(id: &str, title: &str, said_texts: &[(&str, &str)]) -> ConversationItem {
    ConversationItem {
        conversation: Conversation {
            id: Some(id.to_owned()),
            title: Some(title.to_owned()),
            ..Default::default()
        },
        responses: said_texts
            .iter()
            .map(|(id, text)| said(id, text))
            .collect(),
        extra: ExtraMap::new(),
    }
}

fn two_talks() -> Accumulator {
    let mut acc = Accumulator::new();
    let index = acc.next_export_index().expect("first export");
    assert_eq!(index, 0);
    acc.add_conversations(
        index,
        vec![
            talk("c1", "Catfooding notes", &[("r1", "hello lizard"), ("r2", "the end")]),
            talk("c2", "Other", &[("r3", "hello world")]),
        ],
        &encode_item,
        &encode_response,
    )
    .expect("add");
    acc.close_export(ExportManifest {
        source_path: "/dump/prod-grok-backend.json".to_owned(),
        id: None,
        extra: ExtraMap::new(),
    });
    acc
}

fn ids(root: &ArchiveRoot) -> Vec<Option<String>> {
    root.conversations
        .iter()
        .map(|record| record.id.clone())
        .collect()
}

#[test]
fn new_archives_start_their_text_on_a_page() {
    let packed = two_talks()
        .pack("/m/x.majestic", &encode_item)
        .expect("pack");
    let file = write_archive(
        b"payload",
        packed.text.as_bytes(),
        &packed.spans,
        &packed.bao,
    )
    .expect("file");
    let archive = Archive::open("/m/x.majestic", &file).expect("open");
    assert_eq!(archive.text_file_offset() % TEXT_PAGE_BYTES as u64, 0);
    assert_eq!(archive.payload_slice().expect("payload"), b"payload");
    assert_eq!(archive.text().expect("text"), packed.text);
    assert_eq!(archive.span_count().expect("spans"), packed.spans.len());
    for (i, span) in packed.spans.iter().enumerate() {
        assert_eq!(archive.span(i).expect("span"), *span);
    }
    assert_eq!(archive.bao_blob().expect("blob"), &packed.bao.blob[..]);
    assert_eq!(
        archive.bao_root().expect("root"),
        Some(hash_bytes(&packed.bao.blob).root)
    );
    assert_eq!(archive.path(), "/m/x.majestic");
}

#[test]
fn short_archives_still_search() {
    let packed = two_talks()
        .pack("/m/x.majestic", &encode_item)
        .expect("pack");
    let file = write_archive_with_text_align(
        b"payload",
        packed.text.as_bytes(),
        &packed.spans,
        &packed.bao,
        false,
    )
    .expect("file");
    let archive = Archive::open("/m/x.majestic", &file).expect("open");
    assert_ne!(archive.text_file_offset() % TEXT_PAGE_BYTES as u64, 0);
    let hits = search(&archive, &ids(&packed.root), "Catfooding", false).expect("search");
    assert_eq!(hits.len(), 1);
    assert_eq!(hits[0].conversation_id.as_deref(), Some("c1"));
    assert_eq!(hits[0].field, "title");
}

fn with_archive(check: impl Fn(&Archive, &[Option<String>])) {
    let packed = two_talks()
        .pack("/m/x.majestic", &encode_item)
        .expect("pack");
    let file = write_archive_with_text_align(
        b"payload",
        packed.text.as_bytes(),
        &packed.spans,
        &packed.bao,
        false,
    )
    .expect("file");
    let archive = Archive::open("/m/x.majestic", &file).expect("open");
    check(&archive, &ids(&packed.root));
}

#[test]
fn flags_change_what_a_search_finds() {
    with_archive(|archive, ids| {
        let ids = ids.to_vec();
        assert!(search(archive, &ids, "HELLO", false).expect("plain").is_empty());
        assert_eq!(search(archive, &ids, "HELLO", true).expect("caseless").len(), 2);
        let word = SearchFlags {
            word_regexp: true,
            ..SearchFlags::default()
        };
        assert!(search_with(archive, &ids, "liz", word).expect("word").is_empty());
        assert_eq!(search_with(archive, &ids, "lizard", word).expect("word").len(), 1);
        let fixed = SearchFlags {
            fixed_strings: true,
            ..SearchFlags::default()
        };
        assert!(search_with(archive, &ids, "hel.o", fixed).expect("fixed").is_empty());
        assert_eq!(search(archive, &ids, "hel.o", false).expect("regex").len(), 2);
    });
}

#[test]
fn human_queries_match_within_one_message() {
    with_archive(|archive, ids| {
        let ids = ids.to_vec();
        let flags = SearchFlags::default();
        assert_eq!(
            search_query(archive, &ids, "lizard AND hello", flags)
                .expect("and")
                .len(),
            1
        );
        assert!(search_query(archive, &ids, "lizard AND world", flags)
            .expect("and across messages")
            .is_empty());
        assert_eq!(
            search_query(archive, &ids, "lizard OR world", flags)
                .expect("or")
                .len(),
            2
        );
    });
}

#[test]
fn patterns_that_do_not_compile_are_errors() {
    with_archive(|archive, ids| {
        let ids = ids.to_vec();
        assert!(matches!(
            search(archive, &ids, "(", false),
            Err(Error::InvalidPattern(_))
        ));
        assert!(matches!(
            search(archive, &ids, "", false),
            Err(Error::EmptyPattern)
        ));
    });
}

#[test]
fn one_archive_is_reported() {
    with_archive(|archive, ids| {
        let ids = ids.to_vec();
        let (text, shown) =
            write_search("/m/x.majestic", archive, &ids, "lizard", false).expect("report");
        assert!(text.starts_with("/m/x.majestic\n"), "{text}");
        assert!(text.contains("hello lizard"), "{text}");
        assert!(text.contains("conversation c1  field message"), "{text}");
        assert_eq!(shown, 1);
        let exec = SearchExec {
            flags: SearchFlags::default(),
            max_count: 1,
            format: SearchFormat::Json,
        };
        let (text, shown) =
            write_search_exec("/m/x.majestic", archive, &ids, "hello", exec).expect("json");
        assert_eq!(shown, 1);
        let value: serde_json::Value = serde_json::from_str(&text).expect("JSON");
        assert_eq!(value["hits"][0]["occurrences"][0]["archive"], "/m/x.majestic");
    });
}

#[test]
fn stats_count_what_is_there() {
    let packed = two_talks()
        .pack("/m/x.majestic", &encode_item)
        .expect("pack");
    let file = write_archive_with_text_align(
        b"payload",
        packed.text.as_bytes(),
        &packed.spans,
        &packed.bao,
        false,
    )
    .expect("file");
    let archive = Archive::open("/m/x.majestic", &file).expect("open");
    let stats = archive.stats(&packed.root).expect("stats");
    assert_eq!(stats.exports, 1);
    assert_eq!(stats.conversations, 2);
    let text = write_stats(&archive, &packed.root).expect("text");
    assert!(text.contains("conversations"), "{text}");
    assert_eq!(text, stats.to_text());
    assert_eq!(packed.report.conversations, 2);
    assert_eq!(packed.report.output, "/m/x.majestic");
}

#[test]
fn damaged_files_do_not_open() {
    let bao = pack_blob(Vec::new());
    let file =
        write_archive_with_text_align(b"payload", b"", &[], &bao, false).expect("empty text");
    assert!(Archive::open("a", &file).is_ok());
    assert!(matches!(
        Archive::open("a", &file[..40]),
        Err(Error::InvalidArchive)
    ));
    let mut bad = file.clone();
    bad[0] = b'X';
    assert!(matches!(Archive::open("a", &bad), Err(Error::InvalidMagic)));
    let mut bad = file.clone();
    bad[9] = 9;
    assert!(matches!(
        Archive::open("a", &bad),
        Err(Error::UnsupportedVersion(9))
    ));
    assert!(matches!(
        Archive::open("a", &file[..file.len() - 1]),
        Err(Error::InvalidArchive)
    ));
    assert!(write_archive(b"p", b"\xff", &[], &bao).is_err());
}

#[test]
fn a_damaged_word_index_does_not_open() {
    let packed = two_talks()
        .pack("/m/x.majestic", &encode_item)
        .expect("pack");
    let file = write_archive_with_text_align(
        b"payload",
        packed.text.as_bytes(),
        &packed.spans,
        &packed.bao,
        false,
    )
    .expect("file");
    let archive = Archive::open("a", &file).expect("open");
    let tries = archive.tries_slice().expect("tries").to_vec();
    let at = file
        .windows(tries.len())
        .position(|window| window == &tries[..])
        .expect("tries in the file");
    let mut bad = file.clone();
    bad[at] ^= 0xff;
    assert!(matches!(Archive::open("a", &bad), Err(Error::InvalidTries)));
}

#[test]
fn the_word_index_holds_both_cases() {
    let text = "Hello hello";
    let spans = vec![TextSpan {
        text_off: 0,
        len: text.len() as u64,
        record_kind: RECORD_CONVERSATION,
        record_index: 0,
        field_id: FIELD_TITLE,
    }];
    let tries = pack_tries(text, &spans).expect("tries");
    let header = TriesHeader::parse(&tries).expect("header");
    let cs = fst::Map::new(
        &tries[header.cs_fst_off..header.cs_fst_off + header.cs_fst_len],
    )
    .expect("case sensitive map");
    let ci = fst::Map::new(
        &tries[header.ci_fst_off..header.ci_fst_off + header.ci_fst_len],
    )
    .expect("case insensitive map");
    assert_eq!(cs.len(), 2);
    assert_eq!(ci.len(), 1);
    assert!(cs.get("Hello").is_some());
    assert!(ci.get("hello").is_some());
    assert!(ci.get("Hello").is_none());
}

#[test]
fn words_are_runs_of_letters_and_digits() {
    let words = words_of("a1, b_c  \u{e4}x");
    let texts: Vec<&str> = words.iter().map(|word| word.text.as_str()).collect();
    assert_eq!(texts, ["a1", "b", "c", "\u{e4}x"]);
}

#[test]
fn digests_are_tree_roots() {
    let digest = hash_bytes(b"");
    assert_eq!(
        digest.to_hex(),
        "af1349b9f5f9a1a6a0404dea36dcc9499bcb25c9adc112b7cc9a93cae41f3262"
    );
    let long = vec![7u8; 5000];
    assert_eq!(
        hash_bytes(&long).root,
        *bao_tree::blake3::hash(&long).as_bytes()
    );
    let packed = pack_blob(long.clone());
    assert_eq!(packed.blob, long);
    assert!(!packed.outboard.is_empty());
    assert_eq!(
        hash_range(&long, 10, 20).expect("range").root,
        hash_bytes(&long[10..30]).root
    );
    assert!(matches!(
        hash_range(&long, 4990, 20),
        Err(Error::InvalidArchive)
    ));
    assert_eq!(blob_slice(&long, 0, 3).expect("slice"), &long[..3]);
}

#[test]
fn items_are_hashed_by_their_encoding() {
    let item = talk("c", "t", &[("r", "x")]);
    let digest = hash_item(&item, &encode_item).expect("digest");
    assert_eq!(digest.root, hash_bytes(format!("{item:?}").as_bytes()).root);
    assert!(hash_item(&item, &refuse_item).is_err());
    let bytes = encode_responses(&item.responses, &encode_response).expect("bytes");
    assert_eq!(
        hash_responses(&item.responses, &encode_response)
            .expect("digest")
            .root,
        hash_bytes(&bytes).root
    );
    assert_eq!(
        hash_response(&item.responses[0], &encode_response)
            .expect("digest")
            .root,
        hash_bytes(format!("{:?}", item.responses[0]).as_bytes()).root
    );
}

#[test]
fn the_same_conversation_is_one_row() {
    let mut acc = two_talks();
    let index = acc.next_export_index().expect("second export");
    assert_eq!(index, 1);
    acc.add_conversation(
        index,
        talk("c1", "Catfooding notes", &[("r1", "hello lizard"), ("r2", "the end")]),
        &encode_item,
        &encode_response,
    )
    .expect("again");
    assert_eq!(acc.conversations.len(), 2);
    assert_eq!(acc.conversations[0].export_indices, [0, 1]);
    acc.add_conversation(
        index,
        talk("c1", "Catfooding notes", &[("r9", "one more")]),
        &encode_item,
        &encode_response,
    )
    .expect("more");
    assert_eq!(acc.conversations.len(), 2);
    assert_eq!(acc.conversations[0].item.responses.len(), 3);
    assert_eq!(acc.conversations[0].export_indices, [0, 1]);
}

#[test]
fn conversations_without_an_id_stay_apart() {
    let mut acc = Accumulator::new();
    let mut item = talk("x", "t", &[]);
    item.conversation.id = None;
    acc.add_conversation(0, item, &encode_item, &encode_response)
        .expect("first");
    let mut item = talk("x", "t", &[]);
    item.conversation.id = None;
    acc.add_conversation(0, item, &encode_item, &encode_response)
        .expect("second");
    assert_eq!(acc.conversations.len(), 2);
}

#[test]
fn a_failed_encoding_changes_nothing() {
    let mut acc = Accumulator::new();
    assert!(acc
        .add_conversation(0, talk("x", "t", &[]), &refuse_item, &encode_response)
        .is_err());
    assert!(acc.conversations.is_empty());
    assert!(two_talks().pack("o", &refuse_item).is_err());
}

#[test]
fn the_same_file_is_stored_once() {
    let mut acc = Accumulator::new();
    acc.merge_hashed_assets(
        0,
        vec![
            hash_asset("u1".to_owned(), "assets/u1/content".to_owned(), b"body".to_vec(), 5),
            hash_asset("u2".to_owned(), "assets/u2/content".to_owned(), b"other".to_vec(), 6),
        ],
    );
    acc.merge_hashed_assets(
        1,
        vec![hash_asset(
            "u9".to_owned(),
            "elsewhere".to_owned(),
            b"body".to_vec(),
            7,
        )],
    );
    assert_eq!(acc.assets.len(), 2);
    assert_eq!(acc.assets[0].export_indices, [0, 1]);
    assert_eq!(acc.assets[0].uuid, "u1");
    let packed = acc.pack("o", &encode_item).expect("pack");
    let first = &packed.root.assets[0];
    assert_eq!(
        blob_slice(&packed.bao.blob, first.blob_off, first.blob_len).expect("body"),
        b"body"
    );
}

#[test]
fn pictures_are_stored_with_their_body() {
    let picture = hashed_facebook_image("photos/a.jpg".to_owned(), b"jpeg".to_vec(), 3);
    assert_eq!(picture.uuid, hash_bytes(b"jpeg").to_hex());
    assert_eq!(picture.size, 4);
    assert_eq!(picture.bytes, b"jpeg");
    let mut acc = Accumulator::new();
    acc.add_asset(0, picture);
    acc.add_asset(1, hashed_facebook_image("b.jpg".to_owned(), b"jpeg".to_vec(), 3));
    assert_eq!(acc.assets.len(), 1);
    assert_eq!(acc.assets[0].export_indices, [0, 1]);
    let packed = acc.pack("o", &encode_item).expect("pack");
    let row = &packed.root.assets[0];
    assert_eq!(row.blob_len, row.size);
    assert_eq!(
        blob_slice(&packed.bao.blob, row.blob_off, row.blob_len).expect("body"),
        b"jpeg"
    );
}

#[test]
fn packed_ranges_cover_the_blob_end_to_end() {
    let mut acc = two_talks();
    acc.merge_hashed_assets(
        0,
        vec![
            hash_asset("u1".to_owned(), "p".to_owned(), b"body".to_vec(), 5),
            hashed_facebook_image("a.jpg".to_owned(), b"jpeg!".to_vec(), 3),
        ],
    );
    let packed = acc.pack("o", &encode_item).expect("pack");
    let mut at = 0;
    for record in &packed.root.conversations {
        assert_eq!(record.blob_off, at);
        assert_eq!(record.blob_len, record.byte_len);
        assert_eq!(
            blob_slice(&packed.bao.blob, at, record.blob_len).expect("row"),
            encode_item(&record.item).expect("bytes")
        );
        at += record.blob_len;
    }
    for asset in &packed.root.assets {
        assert_eq!(asset.blob_off, at);
        assert_eq!(asset.blob_len, asset.size);
        at += asset.blob_len;
    }
    assert_eq!(at, packed.bao.blob.len() as u64);
}

#[test]
fn a_second_ingest_keeps_the_number_of_conversations() {
    let packed = two_talks().pack("o", &encode_item).expect("pack");
    assert_eq!(packed.report.conversations, 2);
    assert_eq!(packed.report.exports, 1);
    let mut again = Accumulator::from_archive(
        packed.root,
        &packed.bao.blob,
        &encode_item,
        &encode_response,
    )
    .expect("base");
    let index = again.next_export_index().expect("second export");
    assert_eq!(index, 1);
    again
        .add_conversations(
            index,
            vec![
                talk("c1", "Catfooding notes", &[("r1", "hello lizard"), ("r2", "the end")]),
                talk("c2", "Other", &[("r3", "hello world")]),
            ],
            &encode_item,
            &encode_response,
        )
        .expect("add");
    again.close_export(ExportManifest {
        source_path: "/dump/prod-grok-backend.json".to_owned(),
        id: None,
        extra: ExtraMap::new(),
    });
    let second = again.pack("o", &encode_item).expect("pack again");
    assert_eq!(second.report.conversations, 2);
    assert_eq!(second.report.exports, 2);
    assert_eq!(second.root.conversations[0].export_indices, [0, 1]);
}

#[test]
fn a_file_without_a_payload_does_not_open() {
    let packed = two_talks().pack("o", &encode_item).expect("pack");
    let file = write_archive_with_text_align(
        b"",
        packed.text.as_bytes(),
        &packed.spans,
        &packed.bao,
        false,
    )
    .expect("file");
    assert!(matches!(
        Archive::open("/m/x.majestic", &file),
        Err(Error::InvalidArchive)
    ));
}

#[test]
fn a_moved_match_start_is_refused_next_to_a_call() {
    let packed = two_talks().pack("o", &encode_item).expect("pack");
    let file = write_archive_with_text_align(
        b"payload",
        packed.text.as_bytes(),
        &packed.spans,
        &packed.bao,
        false,
    )
    .expect("file");
    let archive = Archive::open("/m/x.majestic", &file).expect("open");
    let names = ids(&packed.root);
    for pattern in [
        r"/(?=ab(?1))|(\K)x/",
        r"/(?<n>\K)x|(?=ab(?&n))/",
        r"/(\K)x|(?<!\g<1>)y/",
        r"/(\K)x|(*pla:(?R))y/",
    ] {
        let refused = search_query(&archive, &names, pattern, SearchFlags::default());
        match refused {
            Err(Error::InvalidPattern(why)) => assert_eq!(
                why,
                r"\K cannot be used together with a lookaround and a subroutine call or recursion",
                "{pattern}"
            ),
            _ => panic!("{pattern} must be refused"),
        }
    }
    let hits = search_query(&archive, &names, r"/hello \Klizard/", SearchFlags::default())
        .expect("a moved start alone");
    assert_eq!(hits.len(), 1);
    let hits = search_query(&archive, &names, r"/(li)zard(?:(?1))?/", SearchFlags::default())
        .expect("a call alone");
    assert_eq!(hits.len(), 1);
    for (pattern, count) in [
        (r"/hello \Kliz(ard)(?1)?/", 1),
        (r"/h(?:ello \K)lizard(?R)?/", 1),
        (r"/(?=hello)hello \Kw(?<n>or)ld/", 1),
        (r"/(?<=o )(?:li)(zard)(?1)?/", 1),
    ] {
        let hits = search_query(&archive, &names, pattern, SearchFlags::default()).expect(pattern);
        assert_eq!(hits.len(), count, "{pattern}");
    }
    let fixed = SearchFlags {
        fixed_strings: true,
        ..SearchFlags::default()
    };
    assert!(search_query(&archive, &names, r"(?=\K(?1))", fixed)
        .expect("a literal")
        .is_empty());
}

#[test]
fn answers_of_the_engine_are_placed_in_the_text() {
    let text = "one\ntw\u{f6} two\n\nend";
    assert_eq!(
        place_matches(text, &vec![2, 4], &vec![vec![(0, 4), (5, 5)], vec![(1, 3)]]),
        [(4, 4), (9, 0), (15, 2)]
    );
    assert!(place_matches(text, &Vec::new(), &Vec::new()).is_empty());
    assert!(place_matches(text, &vec![1], &vec![Vec::new()]).is_empty());
}

#[test]
fn matches_of_spans_come_to_hits() {
    let span = |text_off: u64, len: u64, record_index: u32| TextSpan {
        text_off,
        len,
        record_kind: RECORD_RESPONSE,
        record_index,
        field_id: FIELD_MESSAGE,
    };
    let text = "aXbX\u{e9}same";
    let names = vec![Some("c1".to_owned()), Some("c2".to_owned())];
    let spans = vec![span(0, 4, 1), span(4, 2, 0), span(6, 4, 0), span(6, 4, 0)];
    let lists = vec![
        vec![(3, 1), (1, 1), (1, 2), (9, 1)],
        Vec::new(),
        vec![(0, 1)],
        vec![(0, 4)],
    ];
    let found = gather_hits(text, &spans, &names, &lists).expect("hits");
    let shown: Vec<(Option<&str>, &str, u64)> = found
        .hits
        .iter()
        .map(|hit| (hit.conversation_id.as_deref(), hit.span_text.as_str(), hit.span_off))
        .collect();
    assert_eq!(shown, [(Some("c2"), "aXbX", 0), (Some("c1"), "same", 6)]);
    assert_eq!(found.duplicate_omitted, 3);
    let inside = vec![Vec::new(), vec![(1, 1)], Vec::new(), Vec::new()];
    assert!(matches!(
        gather_hits(text, &spans, &names, &inside),
        Err(Error::InvalidArchive)
    ));
    assert!(matches!(
        gather_hits(text, &vec![span(0, 4, 7)], &names, &vec![vec![(0, 1)]]),
        Err(Error::InvalidArchive)
    ));
    assert!(matches!(
        gather_hits(text, &vec![span(8, 9, 0)], &names, &vec![Vec::new()]),
        Err(Error::InvalidArchive)
    ));
}

#[test]
fn text_without_spans_has_no_hits() {
    let bao = two_talks().pack("o", &encode_item).expect("pack").bao;
    let file = write_archive_with_text_align(b"payload", b"lizard", &[], &bao, false)
        .expect("file");
    let archive = Archive::open("/m/x.majestic", &file).expect("open");
    assert!(search(&archive, &Vec::new(), "lizard", false)
        .expect("nothing to search")
        .is_empty());
}

#[test]
fn an_archive_is_the_base_of_the_next_ingest() {
    let mut acc = two_talks();
    acc.add_asset(
        0,
        hash_asset("u1".to_owned(), "p".to_owned(), b"body".to_vec(), 5),
    );
    let packed = acc.pack("o", &encode_item).expect("pack");
    let again = Accumulator::from_archive(
        packed.root,
        &packed.bao.blob,
        &encode_item,
        &encode_response,
    )
    .expect("base");
    assert_eq!(again.conversations.len(), 2);
    assert_eq!(again.asset_bodies, [b"body".to_vec()]);
    let second = again.pack("o", &encode_item).expect("pack again");
    assert_eq!(second.bao.blob, packed.bao.blob);
    assert_eq!(second.text, packed.text);
}

#[test]
fn spans_tile_the_text() {
    let packed = two_talks().pack("o", &encode_item).expect("pack");
    let (text, spans) = build_text(&packed.root.conversations).expect("text");
    assert_eq!(text, "Catfooding noteshello lizardthe endOtherhello world");
    let mut at = 0;
    for span in &spans {
        assert_eq!(span.text_off, at);
        at += span.len;
    }
    assert_eq!(at, text.len() as u64);
    assert_eq!(spans[0].field_id, FIELD_TITLE);
    assert_eq!(spans[0].record_kind, RECORD_CONVERSATION);
    assert_eq!(spans[1].field_id, FIELD_MESSAGE);
    assert_eq!(spans[1].record_kind, RECORD_RESPONSE);
}

#[test]
fn pages_round_up() {
    assert_eq!(align_up_to_text_page(0).expect("zero"), 0);
    assert_eq!(
        align_up_to_text_page(1).expect("one"),
        TEXT_PAGE_BYTES as u64
    );
    assert!(align_up_to_text_page(u64::MAX).is_err());
}

#[test]
fn a_short_trailing_region_is_refused() {
    assert!(parse_bao_region(&[0u8; 47]).is_err());
    assert!(parse_bao_region(&[0u8; 48]).is_ok());
}

#[test]
fn files_are_written_beside_first() {
    assert_eq!(tmp_beside("/m/x.majestic"), "/m/x.majestic.tmp");
}

#[test]
fn compressed_files_come_back() {
    let bytes = b"lizard ".repeat(500);
    let packed = compress_to_zst("/m/x.majestic", &bytes).expect("compress");
    assert_eq!(packed.path, "/m/x.majestic.zst");
    assert!(packed.bytes.len() < bytes.len());
    let back = decompress_zst(&packed.path, &packed.bytes).expect("decompress");
    assert_eq!(back.path, "/m/x.majestic");
    assert_eq!(back.bytes, bytes);
    assert!(matches!(
        compress_to_zst("a.zst", b"x"),
        Err(Error::InvalidParams(_))
    ));
    assert!(decompress_zst("a.majestic", b"x").is_err());
    assert!(decompress_zst("a.zst", b"not a frame").is_err());
}
