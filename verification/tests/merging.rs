use majestic::merge::{
    atom_len, atom_sort_key, enrich_item, is_newer, merge_conversation, merge_responses,
    message_len, pick_text, timestamp_sort_key,
};
use majestic::records::{Conversation, ConversationItem, Response, ResponseItem, Timestamp};
use majestic::schema::{same_atom, union_extra, ExtraMap, JsonAtom, JsonFloat};
use majestic::Error;

fn encode(item: &ResponseItem) -> Result<Vec<u8>, Error> {
    Ok(format!("{item:?}").into_bytes())
}

fn refuse(_item: &ResponseItem) -> Result<Vec<u8>, Error> {
    Err(Error::Ingest("no encoding".to_owned()))
}

fn said(id: Option<&str>, text: &str) -> ResponseItem {
    ResponseItem {
        response: Response {
            _id: id.map(str::to_owned),
            message: Some(JsonAtom::String(text.to_owned())),
            ..Default::default()
        },
        share_link: None,
        extra: ExtraMap::new(),
    }
}

fn texts(items: &[ResponseItem]) -> Vec<String> {
    items
        .iter()
        .map(|item| match &item.response.message {
            Some(JsonAtom::String(text)) => text.clone(),
            _ => String::new(),
        })
        .collect()
}

#[test]
fn merging_a_copy_adds_nothing() {
    let merged = merge_responses(
        vec![said(Some("1"), "a"), said(Some("2"), "b")],
        vec![said(Some("1"), "a"), said(Some("2"), "b")],
        &encode,
    )
    .expect("merge");
    assert_eq!(texts(&merged), ["a", "b"]);
}

#[test]
fn merging_keeps_the_longer_message() {
    let merged = merge_responses(
        vec![said(Some("1"), "short"), said(Some("2"), "long enough")],
        vec![said(Some("1"), "much longer"), said(Some("2"), "tiny")],
        &encode,
    )
    .expect("merge");
    assert_eq!(texts(&merged), ["much longer", "long enough", "tiny"]);
}

#[test]
fn merging_keeps_every_id() {
    let merged = merge_responses(
        vec![said(Some("1"), "a"), said(None, "n")],
        vec![said(None, "n"), said(Some("3"), "c"), said(Some("3"), "cc")],
        &encode,
    )
    .expect("merge");
    assert_eq!(texts(&merged), ["a", "n", "n", "cc"]);
    assert!(merge_responses(
        vec![said(Some("1"), "a")],
        vec![said(Some("1"), "b")],
        &refuse
    )
    .is_err());
}

#[test]
fn merging_keeps_every_place() {
    let merged = merge_responses(
        vec![said(Some("1"), "a"), said(None, "n"), said(Some("2"), "b")],
        vec![said(Some("2"), "longer"), said(Some("4"), "d"), said(Some("1"), "")],
        &encode,
    )
    .expect("merge");
    let ids: Vec<Option<&str>> = merged
        .iter()
        .map(|item| item.response._id.as_deref())
        .collect();
    assert_eq!(ids[..3], [Some("1"), None, Some("2")]);
    assert!(ids.contains(&Some("4")));
}

#[test]
fn newer_copies_win() {
    let old = Conversation {
        id: Some("c".to_owned()),
        title: Some("A long old title".to_owned()),
        starred: Some(false),
        ..Default::default()
    };
    let new = Conversation {
        id: Some("c".to_owned()),
        title: Some("New".to_owned()),
        starred: Some(true),
        summary: Some("s".to_owned()),
        ..Default::default()
    };
    let merged = merge_conversation(old, new, true);
    assert_eq!(merged.title.as_deref(), Some("New"));
    assert_eq!(merged.starred, Some(true));
    assert_eq!(merged.summary.as_deref(), Some("s"));
}

#[test]
fn older_copies_only_fill_gaps() {
    let here = Conversation {
        title: Some("Kept title".to_owned()),
        starred: Some(false),
        ..Default::default()
    };
    let older = Conversation {
        title: Some("Old".to_owned()),
        starred: Some(true),
        user_id: Some("u".to_owned()),
        ..Default::default()
    };
    let merged = merge_conversation(here, older, false);
    assert_eq!(merged.title.as_deref(), Some("Kept title"));
    assert_eq!(merged.starred, Some(false));
    assert_eq!(merged.user_id.as_deref(), Some("u"));
}

#[test]
fn texts_are_picked() {
    let text = |s: &str| Some(s.to_owned());
    assert_eq!(pick_text(text("aa"), text("b"), false), text("aa"));
    assert_eq!(pick_text(text("a"), text("bb"), false), text("bb"));
    assert_eq!(pick_text(text("a"), text(""), true), text("a"));
    assert_eq!(pick_text(text("a"), None, true), text("a"));
    assert_eq!(pick_text(None, text(""), true), text(""));
}

#[test]
fn times_are_compared_by_their_keys() {
    let iso = |s: &str| Some(Timestamp::Iso(s.to_owned()));
    assert!(is_newer(&iso("2026-02"), &iso("2026-01")));
    assert!(!is_newer(&iso("2026-01"), &iso("2026-01")));
    assert!(is_newer(&iso("x"), &None));
    assert!(!is_newer(&None, &iso("x")));
    assert_eq!(
        timestamp_sort_key(&Timestamp::BsonDate {
            date: JsonAtom::I64(5)
        }),
        "bson:i5"
    );
    assert_eq!(
        timestamp_sort_key(&Timestamp::Other(JsonAtom::U64(7))),
        "other:u7"
    );
}

#[test]
fn atoms_have_lengths_and_keys() {
    let mut map = ExtraMap::new();
    map.insert("k".to_owned(), JsonAtom::Bool(true));
    let array = JsonAtom::Array(vec![
        JsonAtom::String("abc".to_owned()),
        JsonAtom::Null,
        JsonAtom::Object(map),
        JsonAtom::F64(JsonFloat {
            bits: 1.5f64.to_bits(),
            text: "1.5".to_owned(),
        }),
    ]);
    assert_eq!(atom_len(&array), 5);
    assert_eq!(atom_sort_key(&array), "abc,null,k=btrue,f1.5");
    assert_eq!(message_len(&said(None, "\u{e4}")), 2);
    assert!(same_atom(&array, &array.copied()));
    assert!(!same_atom(&array, &JsonAtom::Null));
}

#[test]
fn leftover_maps_are_united() {
    let mut left = ExtraMap::new();
    left.insert("a".to_owned(), JsonAtom::I64(1));
    let mut right = ExtraMap::new();
    right.insert("a".to_owned(), JsonAtom::I64(2));
    right.insert("b".to_owned(), JsonAtom::I64(3));
    let kept = union_extra(left.copied(), right.copied(), false);
    assert_eq!(kept.get("a"), Some(&JsonAtom::I64(1)));
    assert_eq!(kept.get("b"), Some(&JsonAtom::I64(3)));
    let mut won = union_extra(left, right, true);
    assert_eq!(won.get("a"), Some(&JsonAtom::I64(2)));
    assert_eq!(won.remove("a"), Some(JsonAtom::I64(2)));
    assert_eq!(won.get("a"), None);
}

#[test]
fn items_are_enriched() {
    let item = |title: &str, text: &str| ConversationItem {
        conversation: Conversation {
            id: Some("c".to_owned()),
            title: Some(title.to_owned()),
            ..Default::default()
        },
        responses: vec![said(Some("1"), text)],
        extra: ExtraMap::new(),
    };
    let merged = enrich_item(
        item("old", "a"),
        item("new", "abc"),
        &Some(Timestamp::Iso("1".to_owned())),
        &Some(Timestamp::Iso("2".to_owned())),
        &encode,
    )
    .expect("merge");
    assert_eq!(merged.conversation.title.as_deref(), Some("new"));
    assert_eq!(texts(&merged.responses), ["abc"]);
}
