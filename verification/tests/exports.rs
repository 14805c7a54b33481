use majestic::cards::{looks_like_story_card_file, no_story_cards, story_card_item};
use majestic::characters::{character_item, is_characters_dir, is_toml_file};
use majestic::chatgpt::{content_parts_text, message_node_order, ChatGptConvo};
use majestic::facebook::{
    activity_roots, data_strings, is_facebook_dir, json_label, stable_id, FacebookObject,
};
use majestic::markdown::{
    first_heading, markdown_id, markdown_item, parse_yaml_scalar, relative_to, split_frontmatter,
};
use majestic::names::{
    account_from_path, is_chatexport_result_json, is_conversations_json_name,
    is_facebook_image_name, is_twitter_payload_js_name,
};
use majestic::number::parse_i64;
use majestic::records::{ConversationItem, Timestamp};
use majestic::schema::{ExtraMap, JsonAtom, JsonFloat};
use majestic::sessions::{
    apply_session_summary, export_id, is_leftover, line_error, looks_like_uuid,
    session_conversation, session_line_to_response, session_lines_path, session_manifest,
    SessionJsonlLine, SessionSummaryFile,
};
use majestic::sources::no_character_error;
use majestic::sqlite::{quote_ident, row_to_item, select_sql, value_to_atom, SqlValue};
use majestic::telegram::{
    concat_telegram_text, root_key, stringify_id, ChatState, PeekKeys, RootKey, RootState,
    TelegramMessage, TelegramMeta,
};
use majestic::x_archive::{
    data_root, item_from_atom, skip_ytd_assignment, username_from_atom, usable_account,
};
use majestic::Error;

fn atom_of(value: &serde_json::Value) -> JsonAtom {
    match value {
        serde_json::Value::Null => JsonAtom::Null,
        serde_json::Value::Bool(b) => JsonAtom::Bool(*b),
        serde_json::Value::Number(n) => {
            if let Some(i) = n.as_i64() {
                JsonAtom::I64(i)
            } else if let Some(u) = n.as_u64() {
                JsonAtom::U64(u)
            } else {
                let f = n.as_f64().expect("number");
                JsonAtom::F64(JsonFloat {
                    bits: f.to_bits(),
                    text: f.to_string(),
                })
            }
        }
        serde_json::Value::String(s) => JsonAtom::String(s.clone()),
        serde_json::Value::Array(v) => JsonAtom::Array(v.iter().map(atom_of).collect()),
        serde_json::Value::Object(m) => {
            let mut extra = ExtraMap::new();
            for (key, value) in m {
                extra.insert(key.clone(), atom_of(value));
            }
            JsonAtom::Object(extra)
        }
    }
}

fn parse(text: &str) -> serde_json::Value {
    serde_json::from_str(text).expect("JSON")
}

fn atom(text: &str) -> JsonAtom {
    atom_of(&parse(text))
}

fn text_atom(text: &str) -> JsonAtom {
    JsonAtom::String(text.to_owned())
}

fn message_of(value: &serde_json::Value) -> TelegramMessage {
    let mut message = TelegramMessage {
        id: None,
        from: None,
        from_id: None,
        date: None,
        text: None,
        extra: ExtraMap::new(),
    };
    for (key, value) in value.as_object().expect("message") {
        let value = atom_of(value);
        match key.as_str() {
            "id" => message.id = Some(value),
            "from" => message.from = Some(value),
            "from_id" => message.from_id = Some(value),
            "date" => message.date = Some(value),
            "text" => message.text = Some(value),
            _ => message.extra.insert(key.clone(), value),
        }
    }
    message
}

fn chat_of(value: &serde_json::Value) -> ConversationItem {
    let mut chat = ChatState::new();
    for (key, value) in value.as_object().expect("chat") {
        if key == "messages" {
            for message in value.as_array().expect("messages") {
                chat.message(message_of(message));
            }
        } else {
            chat.value(key.clone(), atom_of(value));
        }
    }
    chat.into_item()
}

fn telegram_meta(doc: &serde_json::Value) -> Option<TelegramMeta> {
    let mut keys = PeekKeys::new();
    for (key, value) in doc.as_object().expect("document") {
        keys = keys.saw(key);
        if key == "personal_information" {
            keys.username = value["username"].as_str().map(str::to_owned);
        }
    }
    keys.meta()
}

fn telegram_items(doc: &serde_json::Value) -> (Vec<ConversationItem>, ExtraMap) {
    let mut items = Vec::new();
    let mut root = RootState::new();
    for (key, value) in doc.as_object().expect("document") {
        let kind = root_key(key);
        root.saw(kind);
        match kind {
            RootKey::Chats => {
                let mut rest = ExtraMap::new();
                for (name, value) in value.as_object().expect("chats") {
                    if name == "list" {
                        for chat in value.as_array().expect("list") {
                            items.push(chat_of(chat));
                        }
                    } else {
                        rest.insert(name.clone(), atom_of(value));
                    }
                }
                root.beside(key.clone(), rest);
            }
            RootKey::Messages => {
                for message in value.as_array().expect("messages") {
                    root.chat.message(message_of(message));
                }
            }
            _ => root.value(key.clone(), atom_of(value)),
        }
    }
    let (item, extra) = root.finish();
    items.extend(item);
    (items, extra)
}

#[test]
fn concat_telegram_text_joins_entity_array() {
    let mut entity = ExtraMap::new();
    entity.insert("type".to_owned(), JsonAtom::String("plain".to_owned()));
    entity.insert("text".to_owned(), JsonAtom::String("telegram".to_owned()));
    let atom = JsonAtom::Array(vec![
        JsonAtom::String("Catfooding ".to_owned()),
        JsonAtom::Object(entity),
        JsonAtom::String(" fixture".to_owned()),
    ]);
    assert_eq!(
        concat_telegram_text(&atom).as_deref(),
        Some("Catfooding telegram fixture")
    );
}

#[test]
fn stringify_telegram_id_from_number() {
    assert_eq!(stringify_id(&JsonAtom::I64(1)).as_deref(), Some("1"));
}

#[test]
fn ids_are_whole_numbers_or_texts() {
    assert_eq!(stringify_id(&atom("18446744073709551615")).as_deref(), Some("18446744073709551615"));
    assert_eq!(stringify_id(&atom("2.0")).as_deref(), Some("2"));
    assert_eq!(stringify_id(&atom("2.5")), None);
    assert_eq!(stringify_id(&text_atom("")), None);
    assert_eq!(stringify_id(&JsonAtom::Null), None);
}

#[test]
fn full_account_chats_list_yields_conversation() {
    let doc = parse(
        r#"{
  "personal_information": {"user_id": 1, "username": "synthtelegramuser"},
  "chats": {
    "list": [
      {
        "name": "synth chat",
        "type": "personal_chat",
        "id": 1,
        "messages": [
          {
            "id": 1,
            "date": "2026-01-01T00:00:00",
            "from": "synth-from",
            "from_id": "user1",
            "text": [{"type": "plain", "text": "Catfooding telegram fixture"}]
          }
        ]
      }
    ]
  }
}"#,
    );
    let meta = telegram_meta(&doc).expect("full-account is telegram");
    assert_eq!(meta.username.as_deref(), Some("synthtelegramuser"));
    let (items, extra) = telegram_items(&doc);
    assert!(
        extra.get("personal_information").is_some(),
        "personal_information stays leftover on the export"
    );
    assert_eq!(items.len(), 1);
    assert_eq!(items[0].conversation.id.as_deref(), Some("1"));
    assert_eq!(items[0].conversation.title.as_deref(), Some("synth chat"));
    assert_eq!(
        items[0].responses[0].response.message,
        Some(JsonAtom::String("Catfooding telegram fixture".to_owned()))
    );
    assert_eq!(
        items[0].responses[0].response.conversation_id.as_deref(),
        Some("1")
    );
    assert_eq!(
        items[0].responses[0].response.sender.as_deref(),
        Some("synth-from")
    );
}

#[test]
fn full_account_two_chats_are_two_conversations() {
    let doc = parse(
        r#"{
  "personal_information": {"user_id": 1, "username": "synthtelegramuser"},
  "chats": {
    "list": [
      {
        "name": "first chat",
        "type": "personal_chat",
        "id": 1,
        "messages": [{"id": 1, "date": "2026-01-01T00:00:00", "text": "alpha token"}]
      },
      {
        "name": "second chat",
        "type": "personal_chat",
        "id": 2,
        "messages": [{"id": 1, "date": "2026-01-01T00:00:01", "text": "beta token"}]
      }
    ]
  }
}"#,
    );
    let (items, _) = telegram_items(&doc);
    assert_eq!(
        items.len(),
        2,
        "each chats.list entry is one conversation, got {}",
        items.len()
    );
    assert_eq!(items[0].conversation.id.as_deref(), Some("1"));
    assert_eq!(items[1].conversation.id.as_deref(), Some("2"));
}

#[test]
fn left_chats_list_yields_conversation() {
    let doc = parse(
        r#"{
  "personal_information": {"user_id": 1, "username": "synthtelegramuser"},
  "chats": { "list": [] },
  "left_chats": {
    "list": [
      {
        "name": "left chat",
        "type": "personal_chat",
        "id": 9,
        "messages": [{"id": 1, "date": "2026-01-01T00:00:00", "text": "left-chat token"}]
      }
    ]
  }
}"#,
    );
    let meta = telegram_meta(&doc).expect("left_chats with personal_information is telegram");
    assert_eq!(meta.username.as_deref(), Some("synthtelegramuser"));
    let (items, _) = telegram_items(&doc);
    assert_eq!(
        items.len(),
        1,
        "left_chats.list entries are conversations, got {}",
        items.len()
    );
    assert_eq!(items[0].conversation.id.as_deref(), Some("9"));
}

#[test]
fn chatexport_parent_name_is_telegram_path() {
    let doc = parse(r#"{"about":"not a grok dump"}"#);
    assert!(is_chatexport_result_json(
        "/tmp/ChatExport_2026-05-06/result.json"
    ));
    assert!(!is_chatexport_result_json("/tmp/other/result.json"));
    assert!(telegram_meta(&doc).is_none());
}

#[test]
fn a_single_chat_document_is_one_conversation() {
    let doc = parse(
        r#"{"name": "solo", "type": "personal_chat", "id": 3, "odd": 1,
            "messages": [{"id": 1, "text": "hi"}]}"#,
    );
    assert!(telegram_meta(&doc).is_some());
    let (items, extra) = telegram_items(&doc);
    assert_eq!(items.len(), 1);
    assert_eq!(items[0].conversation.title.as_deref(), Some("solo"));
    assert_eq!(items[0].conversation.extra.get("odd"), Some(&JsonAtom::I64(1)));
    assert!(extra.is_empty());
}

#[test]
fn chatgpt_messages_follow_the_current_branch() {
    let mapping = r#"{
        "root": {"id": "root", "children": ["a"]},
        "a": {"id": "a", "parent": "root", "children": ["b", "c"],
              "message": {"id": "m-a", "author": {"role": "user"},
                          "content": {"parts": ["hello ", {"text": "there"}]}}},
        "b": {"id": "b", "parent": "a", "children": [],
              "message": {"id": "m-b", "content": {"parts": ["old answer"]}}},
        "c": {"id": "c", "parent": "a", "children": [],
              "message": {"id": "m-c", "author": {"role": "assistant"},
                          "content": {"parts": ["new answer"]}}}
    }"#;
    let mut convo = ChatGptConvo::new();
    convo.value("title".to_owned(), text_atom("Branches"));
    convo.value("conversation_id".to_owned(), text_atom("conv"));
    convo.value("create_time".to_owned(), JsonAtom::I64(7));
    convo.value("mapping".to_owned(), atom(mapping));
    convo.value("current_node".to_owned(), text_atom("c"));
    let item = convo.into_item();
    assert_eq!(item.conversation.id.as_deref(), Some("conv"));
    assert_eq!(item.conversation.title.as_deref(), Some("Branches"));
    assert_eq!(
        item.conversation.create_time,
        Some(Timestamp::Other(JsonAtom::I64(7)))
    );
    let ids: Vec<&str> = item
        .responses
        .iter()
        .map(|response| response.response._id.as_deref().unwrap_or("-"))
        .collect();
    assert_eq!(ids, ["m-a", "m-c", "m-b"]);
    assert_eq!(
        item.responses[0].response.message,
        Some(text_atom("hello there"))
    );
    assert_eq!(
        item.responses[1].response.sender.as_deref(),
        Some("assistant")
    );
    assert!(item.conversation.extra.get("mapping").is_some());
}

#[test]
fn chatgpt_climbs_stop_on_a_cycle() {
    let nodes = match atom(
        r#"{"a": {"parent": "b", "children": ["b"]}, "b": {"parent": "a", "children": ["a"]},
            "z": {"children": []}}"#,
    ) {
        JsonAtom::Object(nodes) => nodes,
        _ => unreachable!(),
    };
    assert_eq!(
        message_node_order(&nodes, Some("a".to_owned())),
        ["b", "a", "z"]
    );
    assert_eq!(message_node_order(&nodes, None), ["z", "a", "b"]);
}

#[test]
fn chatgpt_contents_need_text() {
    assert_eq!(content_parts_text(None), None);
    assert_eq!(content_parts_text(Some(&atom(r#"{"parts": [1, null]}"#))), None);
    assert_eq!(
        content_parts_text(Some(&atom(r#"{"text": "plain"}"#))).as_deref(),
        Some("plain")
    );
}

#[test]
fn facebook_objects_keep_their_texts() {
    let mut object = FacebookObject::new();
    object.value("title".to_owned(), text_atom("Thread"));
    object.value("timestamp_ms".to_owned(), JsonAtom::I64(5));
    object.value("timestamp".to_owned(), JsonAtom::I64(6));
    object.value(
        "messages".to_owned(),
        atom(r#"[{"content": "first", "timestamp_ms": 11}, {"photo": 1}, {"content": "second"}]"#),
    );
    object.value("data".to_owned(), atom(r#"[{"post": "b"}, {"note": ["c", 1]}]"#));
    object.value("content".to_owned(), text_atom("own"));
    let item = object.into_item("your_facebook_activity\\x.json", 4);
    assert_eq!(
        item.conversation.id.as_deref(),
        Some("your_facebook_activity/x.json#5")
    );
    let texts: Vec<&JsonAtom> = item
        .responses
        .iter()
        .map(|response| response.response.message.as_ref().expect("text"))
        .collect();
    assert_eq!(
        texts,
        [
            &text_atom("first"),
            &text_atom("second"),
            &text_atom("own"),
            &text_atom("b\nc")
        ]
    );
    assert_eq!(item.responses[0].response._id.as_deref(), Some("11"));
    assert_eq!(
        item.conversation.create_time,
        Some(Timestamp::Other(JsonAtom::I64(5)))
    );
}

#[test]
fn facebook_ids_are_stable() {
    assert_eq!(stable_id("p", 3, &Some("i".to_owned()), &None), "p#i");
    assert_eq!(stable_id("p", 3, &None, &Some(JsonAtom::I64(9))), "p#9");
    assert_eq!(stable_id("p", 3, &None, &None), "p#3");
    assert_eq!(data_strings(&atom(r#"{"a": "x", "b": ["y", ""]}"#)), "x\ny");
}

#[test]
fn facebook_folders_are_known_by_name() {
    assert!(is_facebook_dir("/x/your_facebook_activity", false, false));
    assert!(is_facebook_dir("/x", false, true));
    assert!(!is_facebook_dir("/x", false, false));
    assert_eq!(
        activity_roots("/x", true, true),
        ["/x/your_facebook_activity", "/x/your_instagram_activity"]
    );
    assert_eq!(activity_roots("/x", false, false), ["/x"]);
    assert_eq!(
        json_label("/x/your_facebook_activity", "/x/your_facebook_activity/m/a.json"),
        "your_facebook_activity/m/a.json"
    );
    assert_eq!(
        account_from_path("/d/facebook-hunter-2026.zip").as_deref(),
        Some("hunter")
    );
    assert_eq!(account_from_path("/d/facebook-a@b-2026.zip"), None);
    assert!(is_facebook_image_name("photos/a.JPeG"));
    assert!(!is_facebook_image_name("photos/a.txt"));
}

#[test]
fn x_archives_start_after_the_assignment() {
    let text = b" window.YTD.tweets.part0 = \n[1]";
    let at = skip_ytd_assignment(text, "tweets.js").expect("assignment");
    assert_eq!(&text[at..], b"[1]");
    let plain = b"\n [2]";
    let at = skip_ytd_assignment(plain, "tweets.js").expect("array");
    assert_eq!(&plain[at..], b"[2]");
    match skip_ytd_assignment(b"window.YTD", "tweets.js") {
        Err(Error::Ingest(text)) => {
            assert_eq!(text, "missing window.YTD assignment in tweets.js")
        }
        _ => panic!("no assignment"),
    }
}

#[test]
fn x_items_are_tweets_likes_and_messages() {
    let tweet = item_from_atom(atom(
        r#"{"tweet": {"id_str": "5", "full_text": "hello x", "created_at": "Mon"}}"#,
    ))
    .expect("tweet");
    assert_eq!(tweet.conversation.id.as_deref(), Some("tweet-5"));
    assert_eq!(tweet.responses[0].response.message, Some(text_atom("hello x")));
    assert_eq!(
        tweet.conversation.create_time,
        Some(Timestamp::Iso("Mon".to_owned()))
    );
    let like = item_from_atom(atom(r#"{"like": {"tweetId": 6, "fullText": "liked"}}"#))
        .expect("like");
    assert_eq!(like.conversation.id.as_deref(), Some("like-6"));
    let dm = item_from_atom(atom(
        r#"{"dmConversation": {"conversationId": "1-2", "messages": [
            {"messageCreate": {"text": "hey", "createdAt": "t1"}}, {"joinConversation": {}}]}}"#,
    ))
    .expect("dm");
    assert_eq!(dm.conversation.id.as_deref(), Some("dm-1-2"));
    assert_eq!(dm.responses.len(), 1);
    assert!(item_from_atom(atom(r#"{"ad": {}}"#)).is_none());
    assert!(item_from_atom(JsonAtom::I64(1)).is_none());
}

#[test]
fn x_accounts_are_no_emails() {
    let name = username_from_atom(&atom(r#"{"account": {"username": "hunter", "email": "a@b"}}"#));
    assert_eq!(name.as_deref(), Some("hunter"));
    assert_eq!(usable_account(name).as_deref(), Some("hunter"));
    assert_eq!(usable_account(Some("a@b".to_owned())), None);
    assert_eq!(usable_account(Some(String::new())), None);
    assert_eq!(data_root("/d", true, false).as_deref(), Some("/d/data"));
    assert_eq!(data_root("/d", false, true).as_deref(), Some("/d"));
    assert_eq!(data_root("/d", false, false), None);
    assert!(is_twitter_payload_js_name("data/tweets-part1.js"));
    assert!(!is_twitter_payload_js_name("data/account.js"));
}

#[test]
fn story_cards_need_a_title_and_a_body() {
    let item = story_card_item(atom(
        r#"{"title": " Keep ", "type": "place", "keys": ["castle", 3], "value": "A castle."}"#,
    ))
    .expect("card");
    assert_eq!(item.conversation.id.as_deref(), Some("Keep"));
    assert_eq!(item.conversation.summary.as_deref(), Some("castle, 3"));
    assert_eq!(item.responses[0].response.message, Some(text_atom("A castle.")));
    assert!(item.conversation.extra.get("type").is_some());
    assert!(item.conversation.extra.get("value").is_none());
    assert!(story_card_item(atom(r#"{"title": "x"}"#)).is_none());
    assert!(story_card_item(atom(r#"{"keys": "x"}"#)).is_none());
    assert!(looks_like_story_card_file("/d/cards.json", b"\xef\xbb\xbf [ {"));
    assert!(!looks_like_story_card_file("/d/user.json", b"["));
    assert!(!looks_like_story_card_file("/d/cards.json", b"{"));
    match no_story_cards("/d/cards.json") {
        Error::Ingest(text) => assert_eq!(
            text,
            "/d/cards.json is a JSON array but has no story cards (need title plus keys or value)"
        ),
        _ => panic!("an ingest error"),
    }
}

#[test]
fn characters_are_toml_files() {
    let item = character_item(
        "/d/characters/kit.toml",
        "name = \"Kit\"\nkeys = [\"fox\", \"red\"]\nvalue = \"A fox.\"\nage = 3\nborn = 2020-01-02\n[deep]\nx = 1.5\n",
    )
    .expect("character");
    assert_eq!(item.conversation.id.as_deref(), Some("Kit"));
    assert_eq!(item.conversation.title.as_deref(), Some("Kit"));
    assert_eq!(item.conversation.summary.as_deref(), Some("fox, red"));
    assert_eq!(item.responses[0].response.message, Some(text_atom("A fox.")));
    assert_eq!(item.conversation.extra.get("age"), Some(&JsonAtom::I64(3)));
    assert_eq!(
        item.conversation.extra.get("born"),
        Some(&text_atom("2020-01-02"))
    );
    let plain = character_item("/d/characters/kit.toml", "").expect("empty");
    assert_eq!(plain.conversation.id.as_deref(), Some("kit"));
    assert!(plain.responses.is_empty());
    match character_item("/d/kit.toml", "= broken") {
        Err(Error::Ingest(text)) => assert!(text.starts_with("failed to parse /d/kit.toml: ")),
        _ => panic!("broken TOML"),
    }
    assert!(is_toml_file("/d/kit.TOML"));
    assert!(!is_toml_file("/d/cargo.toml"));
    assert!(is_characters_dir("/d/characters"));
    assert!(!is_characters_dir("/d/other"));
}

fn sql_text(text: &str) -> SqlValue {
    SqlValue::Text(text.as_bytes().to_vec())
}

#[test]
fn sqlite_rows_become_conversations() {
    let columns: Vec<String> = ["session_id", "title", "content", "content_hash", "updated_at", "n"]
        .iter()
        .map(|name| name.to_string())
        .collect();
    let item = row_to_item(
        &columns,
        &vec![
            sql_text("s1"),
            sql_text(""),
            SqlValue::Text(b"bad \xff byte".to_vec()),
            sql_text("h1"),
            SqlValue::Integer(7),
            SqlValue::Integer(2),
        ],
    )
    .expect("row");
    assert_eq!(item.conversation.id.as_deref(), Some("s1"));
    assert_eq!(item.conversation.title, None);
    assert_eq!(item.responses[0].response._id.as_deref(), Some("h1"));
    assert_eq!(
        item.responses[0].response.message,
        Some(text_atom("bad \u{fffd} byte"))
    );
    assert_eq!(
        item.conversation.modify_time,
        Some(Timestamp::Other(JsonAtom::I64(7)))
    );
    assert_eq!(item.conversation.extra.get("n"), Some(&JsonAtom::I64(2)));
    assert!(row_to_item(&columns[..1].to_vec(), &vec![SqlValue::Null]).is_none());
    assert_eq!(value_to_atom(&SqlValue::Blob(b"x".to_vec())), None);
}

#[test]
fn sqlite_names_are_quoted() {
    assert_eq!(quote_ident("a\"b"), "\"a\"\"b\"");
    let columns = vec!["session_id".to_owned(), "title".to_owned()];
    assert_eq!(
        select_sql(&columns).expect("sql"),
        "SELECT \"session_id\", \"title\" FROM session_docs"
    );
    match select_sql(&vec!["title".to_owned()]) {
        Err(Error::Ingest(text)) => assert_eq!(
            text,
            "session_docs has no session_id column; pass a grok-oss session index"
        ),
        _ => panic!("no session id"),
    }
}

#[test]
fn markdown_has_front_matter_and_a_heading() {
    let text = "---\ntags: 3\ntitle: \"T\"\n# note\nempty:\n---\nintro\n## Second ##\nbody\n";
    let (extra, body) = split_frontmatter(text);
    assert_eq!(extra.get("tags"), Some(&JsonAtom::I64(3)));
    assert_eq!(extra.get("title"), Some(&text_atom("T")));
    assert_eq!(extra.get("empty"), Some(&JsonAtom::Null));
    assert_eq!(body, "intro\n## Second ##\nbody\n");
    assert_eq!(first_heading(&body).as_deref(), Some("Second"));
    assert_eq!(first_heading("#######  too deep\n#\n"), None);
    let (extra, body) = split_frontmatter("--- no fence\n");
    assert!(extra.is_empty());
    assert_eq!(body, "--- no fence\n");
}

#[test]
fn markdown_scalars_are_typed() {
    assert_eq!(parse_yaml_scalar("true"), JsonAtom::Bool(true));
    assert_eq!(parse_yaml_scalar("~"), JsonAtom::Null);
    assert_eq!(parse_yaml_scalar("-12"), JsonAtom::I64(-12));
    assert_eq!(parse_yaml_scalar("'a b'"), text_atom("a b"));
    assert_eq!(parse_yaml_scalar("1.5"), text_atom("1.5"));
    assert_eq!(parse_i64("+7"), Some(7));
    assert_eq!(parse_i64("9223372036854775808"), None);
    assert_eq!(parse_i64("-"), None);
}

#[test]
fn markdown_files_become_conversations() {
    let item = markdown_item("/v", "/v/notes/a.md", b"# Title\nText \xff", Some(5));
    assert_eq!(item.conversation.id.as_deref(), Some("notes/a.md"));
    assert_eq!(item.conversation.title.as_deref(), Some("Title"));
    assert_eq!(
        item.conversation.extra.get("utf8_lossy"),
        Some(&JsonAtom::Bool(true))
    );
    assert_eq!(
        item.responses[0].response.message,
        Some(text_atom("# Title\nText \u{fffd}"))
    );
    assert_eq!(
        item.conversation.create_time,
        Some(Timestamp::Other(JsonAtom::U64(5)))
    );
    let plain = markdown_item("/v", "/v/b.md", b"no heading", None);
    assert_eq!(plain.conversation.title.as_deref(), Some("b"));
    assert_eq!(plain.conversation.create_time, None);
    assert_eq!(markdown_id("/v/a.md", "/v/a.md"), "a.md");
    assert_eq!(relative_to("/v", "/w/a.md"), "/w/a.md");
}

#[test]
fn sessions_take_their_summary() {
    let summary = SessionSummaryFile {
        id: Some("real".to_owned()),
        generated_title: None,
        title: Some("Title".to_owned()),
        session_summary: Some(String::new()),
        extra: ExtraMap::new(),
    };
    let conversation = session_conversation("/s/folder", Some(summary));
    assert_eq!(conversation.id.as_deref(), Some("real"));
    assert_eq!(conversation.title.as_deref(), Some("Title"));
    assert_eq!(conversation.summary, None);
    let bare = session_conversation("/s/folder", None);
    assert_eq!(bare.id.as_deref(), Some("folder"));
    let kept = apply_session_summary(
        bare,
        SessionSummaryFile {
            id: None,
            generated_title: Some("Generated".to_owned()),
            title: Some("Title".to_owned()),
            session_summary: Some("Sum".to_owned()),
            extra: ExtraMap::new(),
        },
    );
    assert_eq!(kept.id.as_deref(), Some("folder"));
    assert_eq!(kept.title.as_deref(), Some("Generated"));
    assert_eq!(kept.summary.as_deref(), Some("Sum"));
}

#[test]
fn session_lines_become_responses() {
    let line = SessionJsonlLine {
        kind: Some("user".to_owned()),
        content: Some(text_atom("hi")),
        line_id: None,
        id: Some("l1".to_owned()),
        model: None,
        model_id: Some("m".to_owned()),
        extra: ExtraMap::new(),
    };
    let response = session_line_to_response(line, &Some("c".to_owned()));
    assert_eq!(response.response._id.as_deref(), Some("l1"));
    assert_eq!(response.response.sender.as_deref(), Some("user"));
    assert_eq!(response.response.model.as_deref(), Some("m"));
    assert_eq!(response.response.conversation_id.as_deref(), Some("c"));
    match line_error("/s/x.jsonl", 2, "bad") {
        Error::Ingest(text) => assert_eq!(text, "failed to parse /s/x.jsonl line 2: bad"),
        _ => panic!("an ingest error"),
    }
}

#[test]
fn session_files_are_told_apart() {
    assert_eq!(
        session_lines_path("/s/other.jsonl", Some("/s/chat_history.jsonl")),
        "/s/chat_history.jsonl"
    );
    assert_eq!(session_lines_path("/s/other.jsonl", None), "/s/other.jsonl");
    let read = vec!["/s/other.jsonl".to_owned()];
    assert!(is_leftover("/s/more.jsonl", &read));
    assert!(!is_leftover("/s/other.jsonl", &read));
    assert!(!is_leftover("/s/chat_history.jsonl", &read));
    assert!(looks_like_uuid("123e4567-e89b-12d3-a456-426614174000"));
    assert!(looks_like_uuid("123e4567e89b12d3a456426614174000"));
    assert!(!looks_like_uuid("123e4567"));
    assert_eq!(
        export_id("/d/123e4567-e89b-12d3-a456-426614174000/prod-grok-backend.json").as_deref(),
        Some("123e4567-e89b-12d3-a456-426614174000")
    );
    assert_eq!(export_id("/d/plain/prod-grok-backend.json"), None);
    let manifest = session_manifest("/s/x.jsonl", &Some("plain".to_owned()), ExtraMap::new());
    assert_eq!(manifest.id, None);
    assert!(is_conversations_json_name("a/conversations-001.json"));
    assert!(!is_conversations_json_name("conversation.json"));
}

#[test]
fn no_key_of_an_export_is_lost() {
    let fields = [
        ("id", JsonAtom::I64(4)),
        ("name", text_atom("Ada")),
        ("type", text_atom("personal_chat")),
        ("title", text_atom("T")),
        ("color", text_atom("red")),
        ("color", text_atom("blue")),
    ];
    let mut chat = ChatState::new();
    let mut convo = ChatGptConvo::new();
    let mut object = FacebookObject::new();
    for (key, value) in fields.iter() {
        chat.value(key.to_string(), value.copied());
        convo.value(key.to_string(), value.copied());
        object.value(key.to_string(), value.copied());
    }
    for item in [chat.into_item(), convo.into_item(), object.into_item("/d/a.json", 0)] {
        for (key, value) in fields.iter() {
            if *value != text_atom("red") {
                assert_eq!(item.conversation.extra.get(key), Some(value));
            }
        }
        assert_eq!(item.conversation.extra.get("absent"), None);
    }

    let tweet = atom(r#"{"tweet": {"id_str": "5"}, "kept": 1}"#);
    let item = item_from_atom(tweet).expect("tweet");
    assert_eq!(item.conversation.extra.get("kept"), Some(&JsonAtom::I64(1)));
    assert!(item.conversation.extra.get("tweet").is_some());

    let item = character_item("/d/kit.toml", "name = \"Kit\"\nvalue = \"Body\"\nmood = \"calm\"\n")
        .expect("character");
    assert_eq!(item.conversation.extra.get("name"), Some(&text_atom("Kit")));
    assert_eq!(item.conversation.extra.get("mood"), Some(&text_atom("calm")));
    assert_eq!(item.responses[0].response.message, Some(text_atom("Body")));
}

#[test]
fn a_telegram_account_keeps_every_key() {
    let doc = parse(
        r#"{"about": "x", "id": 7, "name": "N", "type": "account",
            "personal_information": {"username": "ada"},
            "chats": {"about": "chats", "list": [{"id": 1, "name": "A", "messages": []}]},
            "left_chats": {"list": []}}"#,
    );
    let (items, extra) = telegram_items(&doc);
    assert_eq!(items.len(), 1);
    assert_eq!(extra.get("about"), Some(&text_atom("x")));
    assert_eq!(extra.get("id"), Some(&JsonAtom::I64(7)));
    assert_eq!(extra.get("name"), Some(&text_atom("N")));
    assert_eq!(extra.get("type"), Some(&text_atom("account")));
    assert_eq!(extra.get("chats"), Some(&atom(r#"{"about": "chats"}"#)));
    assert_eq!(extra.get("left_chats"), None);
    assert!(extra.get("personal_information").is_some());
    let (items, extra) = telegram_items(&parse(r#"{"type": "odd"}"#));
    assert!(items.is_empty());
    assert_eq!(extra.get("type"), Some(&text_atom("odd")));
}

#[test]
fn an_odd_message_id_stays_as_it_was() {
    let odd = message_of(&parse(r#"{"id": [1, 2], "text": "hi"}"#)).into_response();
    assert_eq!(odd.response._id, None);
    assert_eq!(odd.response.extra.get("id"), Some(&atom("[1, 2]")));
    let plain = message_of(&parse(r#"{"id": 5, "text": "hi"}"#)).into_response();
    assert_eq!(plain.response._id.as_deref(), Some("5"));
    assert_eq!(plain.response.extra.get("id"), None);
}

#[test]
fn a_session_line_keeps_both_ids_and_models() {
    let mut extra = ExtraMap::new();
    extra.insert("more".to_owned(), JsonAtom::Bool(true));
    let line = SessionJsonlLine {
        kind: Some("assistant".to_owned()),
        content: Some(text_atom("hi")),
        line_id: Some("a".to_owned()),
        id: Some("b".to_owned()),
        model: Some("m".to_owned()),
        model_id: Some("m-1".to_owned()),
        extra,
    };
    let response = session_line_to_response(line, &None).response;
    assert_eq!(response._id.as_deref(), Some("a"));
    assert_eq!(response.model.as_deref(), Some("m"));
    assert_eq!(response.extra.get("id"), Some(&text_atom("b")));
    assert_eq!(response.extra.get("model_id"), Some(&text_atom("m-1")));
    assert_eq!(response.extra.get("more"), Some(&JsonAtom::Bool(true)));
}

#[test]
fn a_session_summary_keeps_every_key() {
    let summary = |generated: Option<&str>, title: Option<&str>, text: Option<&str>| {
        let file = SessionSummaryFile {
            id: None,
            generated_title: generated.map(str::to_owned),
            title: title.map(str::to_owned),
            session_summary: text.map(str::to_owned),
            extra: ExtraMap::new(),
        };
        session_conversation("/s/folder", Some(file))
    };
    let both = summary(Some("Generated"), Some("Own"), Some("Sum"));
    assert_eq!(both.title.as_deref(), Some("Generated"));
    assert_eq!(both.extra.get("title"), Some(&text_atom("Own")));
    assert_eq!(both.extra.get("generated_title"), None);
    assert_eq!(both.extra.get("session_summary"), None);
    let empty = summary(Some(""), Some("Own"), Some(""));
    assert_eq!(empty.title, None);
    assert_eq!(empty.extra.get("generated_title"), Some(&text_atom("")));
    assert_eq!(empty.extra.get("title"), Some(&text_atom("Own")));
    assert_eq!(empty.extra.get("session_summary"), Some(&text_atom("")));
    let own = summary(None, Some("Own"), None);
    assert_eq!(own.title.as_deref(), Some("Own"));
    assert!(own.extra.is_empty());
}

#[test]
fn a_story_card_keeps_every_key() {
    let card = |text: &str| story_card_item(atom(text)).expect("card").conversation;
    let odd = card(r#"{"title": " Keep ", "keys": "castle", "value": []}"#);
    assert_eq!(odd.title.as_deref(), Some("Keep"));
    assert_eq!(odd.extra.get("title"), Some(&text_atom(" Keep ")));
    assert_eq!(odd.extra.get("keys"), Some(&text_atom("castle")));
    assert_eq!(odd.extra.get("value"), Some(&atom("[]")));
    let null = card(r#"{"title": 5, "keys": "castle", "value": null}"#);
    assert_eq!(null.title.as_deref(), Some("5"));
    assert_eq!(null.extra.get("title"), Some(&JsonAtom::I64(5)));
    assert_eq!(null.extra.get("value"), Some(&JsonAtom::Null));
    let plain = card(r#"{"title": "Keep", "value": 3}"#);
    assert_eq!(plain.extra.get("title"), None);
    assert_eq!(plain.extra.get("value"), None);
}

#[test]
fn front_matter_keeps_every_key() {
    let item = markdown_item("/v", "/v/a.md", b"---\na: 1\nb: x\na: 2\n---\nbody", None);
    assert_eq!(item.conversation.extra.get("a"), Some(&JsonAtom::I64(2)));
    assert_eq!(item.conversation.extra.get("b"), Some(&text_atom("x")));
    assert_eq!(item.responses[0].response.message, Some(text_atom("body")));
}

#[test]
fn a_folder_without_characters_is_refused() {
    match no_character_error("/d") {
        Error::Ingest(text) => assert_eq!(text, "no character TOML under /d"),
        _ => panic!("an ingest error"),
    }
}
