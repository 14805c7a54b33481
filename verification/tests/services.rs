use majestic::acp::{backtick_idents, dispatched_methods, methods_listed_in_doc, AcpStep};
use majestic::duplicates::{
    chatgpt_payload_digest, find_copies, group_home_exports, sizes_that_repeat, Payload,
};
use majestic::hash::hash_bytes;
use majestic::infer::{
    infer_account_from_backends, infer_ingest_scope, infer_ingest_scope_from_inputs, infer_order,
    process_user_account, zip_shape, InferredScope, InputScope, ScopeFacts, Shape,
};
use majestic::json::{no_fields, object_of, text_value, u64_value, with_field};
use majestic::mcp::{tool_defs, McpStep, MCP_PROTOCOL_VERSION};
use majestic::listing::{collect_uncompressed_archives, list_memex_archives, WalkEntry};
use majestic::memex::{majestic_sibling, EntryKind};
use majestic::pack::IngestReport;
use majestic::report::{
    archives_to_search, collect_results, section_label, status_label, write_search_all_exec,
    ArchiveResult, SearchExec, SearchFormat, SearchOrigin, SearchStatus,
};
use majestic::rpc::{
    call_local, ingest_result, list_archives_result, opt_paths, opt_usize, respond_err,
    search_result, stdio_format, write_rpc_document, JsonRpcRequest, JsonRpcResponse, LocalCall,
    RecordBuffer, RpcContext, INVALID_PARAMS, METHOD_NOT_FOUND, PARSE_ERROR,
};
use majestic::scan::{
    discover_dir_probes, discover_file, home_step, is_sqlite_magic, sorted_once,
    sources_of, walk_sources_probes, walk_sources_step, FileMarks, HomeStep, NodeKind, Probe,
    SourceKind, WalkStep,
};
use majestic::config::Config;
use majestic::search::{group_hits, SearchHit, UniqueHits};
use majestic::serve::{answer_format, request_format, rpc_body, DEFAULT_BIND};
use majestic::sources::{
    backend_part, infer_ingest_scope_from_discovered, ingest_zip, source_payload_identity,
    twitter_username_extra, BackendPart, PayloadPart, Spill,
};
use majestic::wire::WireFormat;
use majestic::zip::{is_zip_path, kind_from_names, matching_entries, named_entry, Wanted, ZipKind};
use majestic::Error;
use majestic::{acp, mcp};

fn value(text: &str) -> serde_json::Value {
    serde_json::from_str(text).expect("JSON")
}

fn request(method: &str, params: &str, id: Option<u64>) -> JsonRpcRequest {
    JsonRpcRequest {
        jsonrpc: Some("2.0".to_owned()),
        id: id.map(u64_value),
        method: method.to_owned(),
        params: value(params),
    }
}

fn context() -> RpcContext {
    RpcContext::new("/home/u")
}

fn mcp_reply(method: &str, params: &str) -> serde_json::Value {
    match mcp::handle_request(&context(), &request(method, params, Some(1)), "9.9") {
        McpStep::Respond(Some(response)) => response.to_value(),
        _ => panic!("an answer"),
    }
}

#[test]
fn mcp_initialize_keeps_the_asked_version() {
    let reply = mcp_reply("initialize", r#"{"protocolVersion": "2025-01-01"}"#);
    assert_eq!(reply["result"]["protocolVersion"], "2025-01-01");
    assert_eq!(reply["result"]["serverInfo"]["version"], "9.9");
    let reply = mcp_reply("initialize", "null");
    assert_eq!(reply["result"]["protocolVersion"], MCP_PROTOCOL_VERSION);
    assert_eq!(reply["jsonrpc"], "2.0");
    assert_eq!(reply["id"], 1);
}

#[test]
fn mcp_lists_the_local_functions_as_tools() {
    let reply = mcp_reply("tools/list", "{}");
    let tools = reply["result"]["tools"].as_array().expect("tools");
    let names: Vec<&str> = tools
        .iter()
        .map(|tool| tool["name"].as_str().expect("name"))
        .collect();
    assert_eq!(names, dispatched_methods());
    assert_eq!(tools.len(), tool_defs().len());
    assert_eq!(tools[1]["inputSchema"]["required"][0], "pattern");
    assert_eq!(
        tools[3]["inputSchema"]["properties"]["inputs"]["items"]["type"],
        "string"
    );
    assert_eq!(
        tools[0]["inputSchema"],
        value(r#"{"type": "object", "properties": {}}"#)
    );
}

#[test]
fn mcp_notifications_have_no_answer() {
    for method in ["initialized", "notifications/initialized", "nothing"] {
        match mcp::handle_request(&context(), &request(method, "{}", None), "9.9") {
            McpStep::Respond(None) => {}
            _ => panic!("{method}"),
        }
    }
    let reply = mcp_reply("nothing", "{}");
    assert_eq!(reply["error"]["code"], METHOD_NOT_FOUND);
    assert_eq!(reply["error"]["message"], "method not found: nothing");
    assert_eq!(mcp_reply("ping", "{}")["result"], value("{}"));
}

#[test]
fn mcp_tool_calls_are_checked() {
    for (params, text) in [
        ("[]", "tools/call params must be an object"),
        ("{}", "tools/call requires name"),
        (r#"{"name": "rm"}"#, "unknown tool rm"),
        (
            r#"{"name": "search", "arguments": {"pattern": 3}}"#,
            "pattern must be a string",
        ),
    ] {
        let reply = mcp_reply("tools/call", params);
        assert_eq!(reply["result"]["isError"], true, "{params}");
        assert_eq!(reply["result"]["content"][0]["text"], text);
    }
}

#[test]
fn mcp_tool_calls_are_planned_and_answered() {
    let ask = request(
        "tools/call",
        r#"{"name": "scoped_path", "arguments": {"service": "agents/grok", "account": "a"}}"#,
        Some(4),
    );
    match mcp::handle_request(&context(), &ask, "9.9") {
        McpStep::Call(LocalCall::ScopedPath { path }) => {
            assert_eq!(path, "/home/u/memex/agents/grok/a.majestic")
        }
        _ => panic!("a call"),
    }
    let done = mcp::tool_response(&ask, Ok(value(r#"{"path": "x"}"#))).expect("answer");
    assert_eq!(
        done.to_value()["result"]["content"][0]["text"],
        r#"{"path":"x"}"#
    );
    let failed = mcp::tool_response(&ask, Err(Error::InvalidMagic)).expect("answer");
    assert_eq!(failed.to_value()["result"]["isError"], true);
}

#[test]
fn acp_methods_are_the_local_functions() {
    let ctx = context();
    match acp::handle_request(&ctx, &request("initialize", "{}", Some(1)), "9.9") {
        AcpStep::Respond(Some(response)) => {
            let reply = response.to_value();
            assert_eq!(reply["result"]["protocolVersion"], "acp-local/1");
            assert_eq!(reply["result"]["methods"][1], "search");
        }
        _ => panic!("initialize"),
    }
    match acp::handle_request(&ctx, &request("list_archives", "{}", Some(1)), "9.9") {
        AcpStep::Call(LocalCall::ListArchives) => {}
        _ => panic!("list_archives"),
    }
    match acp::handle_request(&ctx, &request("nope", "{}", Some(1)), "9.9") {
        AcpStep::Respond(Some(response)) => {
            assert_eq!(response.to_value()["error"]["code"], METHOD_NOT_FOUND)
        }
        _ => panic!("nope"),
    }
    match acp::handle_request(&ctx, &request("nope", "{}", None), "9.9") {
        AcpStep::Respond(None) => {}
        _ => panic!("a notification"),
    }
    let ask = request("stats", "{}", Some(2));
    let failed = acp::call_response(&ask, Err(Error::InvalidParams("bad".to_owned())));
    assert_eq!(
        failed.expect("answer").to_value()["error"]["code"],
        INVALID_PARAMS
    );
    assert!(matches!(
        acp::call(&ctx, "stats", &value("{}")),
        Err(Error::ArchiveUnspecified)
    ));
}

fn decode(document: serde_json::Value) -> Result<JsonRpcRequest, String> {
    match document["method"].as_str() {
        Some(method) => Ok(JsonRpcRequest {
            jsonrpc: None,
            id: document.get("id").cloned(),
            method: method.to_owned(),
            params: document["params"].clone(),
        }),
        None => Err("missing field `method`".to_owned()),
    }
}

fn perform(call: LocalCall) -> Result<serde_json::Value, Error> {
    match call {
        LocalCall::ScopedPath { path } => Ok(serde_json::Value::String(path)),
        _ => Err(Error::InvalidMagic),
    }
}

#[test]
fn lines_are_handled() {
    let ctx = context();
    let scoped = r#"{"id": 7, "method": "scoped_path", "params": {"service": "s", "account": "a"}}"#;
    let reply = acp::handle_line(&ctx, scoped, "9.9", decode, perform)
        .expect("answer")
        .to_value();
    assert_eq!(reply["id"], 7);
    assert_eq!(reply["result"], "/home/u/memex/s/a.majestic");
    let tool = r#"{"id": 8, "method": "tools/call", "params": {"name": "list_archives"}}"#;
    let reply = mcp::handle_line(&ctx, tool, "9.9", decode, perform)
        .expect("answer")
        .to_value();
    assert_eq!(reply["id"], 8);
    assert_eq!(reply["result"]["isError"], true);
    assert!(acp::handle_line(&ctx, r#"{"method": "nope"}"#, "9.9", decode, perform).is_none());
    for (line, message) in [
        ("", "empty request"),
        (r#"{"id": 1}"#, "missing field `method`"),
    ] {
        for response in [
            acp::handle_line(&ctx, line, "9.9", decode, perform),
            mcp::handle_line(&ctx, line, "9.9", decode, perform),
        ] {
            let reply = response.expect("a parse error").to_value();
            assert_eq!(reply["error"]["code"], PARSE_ERROR);
            assert_eq!(reply["error"]["message"], message);
            assert_eq!(reply["id"], serde_json::Value::Null);
        }
    }
    let broken = mcp::handle_line(&ctx, "{broken", "9.9", decode, perform).expect("a parse error");
    assert_eq!(broken.to_value()["error"]["code"], PARSE_ERROR);
}

#[test]
fn acp_methods_are_read_from_a_table() {
    let doc = "# Title\n\n| Function | ACP method | MCP |\n|---|---|---|\n| a | `search`, `stats` | x |\n| b | n/a | `no` |\n| c | `search` and `not this` | y |\n\n| d | `later` | z |\n";
    assert_eq!(methods_listed_in_doc(doc), ["search", "stats"]);
    assert_eq!(backtick_idents("`a` b `c-d` `e_1` `open"), ["a", "e_1"]);
    assert!(methods_listed_in_doc("no table").is_empty());
}

#[test]
fn parameters_are_typed() {
    let params = value(r#"{"paths": ["a", "b"], "n": 3, "bad": [1], "neg": -1}"#);
    assert_eq!(opt_paths(&params, "paths").expect("paths"), ["a", "b"]);
    assert!(opt_paths(&params, "none").expect("absent").is_empty());
    assert!(opt_paths(&params, "bad").is_err());
    assert_eq!(opt_usize(&params, "n").expect("count"), Some(3));
    assert!(opt_usize(&params, "neg").is_err());
}

#[test]
fn search_calls_take_their_flags() {
    let ctx = context();
    match call_local(
        &ctx,
        "search",
        &value(r#"{"pattern": "x", "ignore_case": true, "archive": "/a.majestic"}"#),
    ) {
        Ok(LocalCall::Search {
            archive,
            pattern,
            flags,
            max_count,
        }) => {
            assert_eq!(archive.as_deref(), Some("/a.majestic"));
            assert_eq!(pattern, "x");
            assert!(flags.ignore_case);
            assert!(!flags.word_regexp);
            assert_eq!(max_count, 100);
        }
        _ => panic!("search"),
    }
    assert!(matches!(
        call_local(&ctx, "search", &value("{}")),
        Err(Error::InvalidParams(_))
    ));
    assert!(matches!(
        call_local(&ctx, "nope", &value("{}")),
        Err(Error::UnknownMethod(_))
    ));
}

#[test]
fn results_are_documents() {
    assert_eq!(
        list_archives_result(&vec!["/a".to_owned()]),
        value(r#"{"archives": ["/a"]}"#)
    );
    let reports = vec![
        IngestReport {
            output: "/a".to_owned(),
            exports: 1,
            conversations: 2,
        },
        IngestReport {
            output: "/b".to_owned(),
            exports: 3,
            conversations: 4,
        },
    ];
    let many = ingest_result(&reports);
    assert_eq!(many["exports"], 4);
    assert_eq!(many["conversations"], 6);
    let hits = vec![SearchHit {
        conversation_id: Some("c".to_owned()),
        field: "message",
        snippet: "s".to_owned(),
        span_off: 0,
        span_text: "s".to_owned(),
    }];
    let groups = group_hits(Some("/a"), &hits);
    let found = search_result(&groups, 0);
    assert_eq!(found["hits"][0]["snippet"], "s");
    assert_eq!(found["hits"][0]["occurrences"][0]["conversation_id"], "c");
}

#[test]
fn responses_are_framed() {
    let ok = JsonRpcResponse::ok(u64_value(1), text_value("x"));
    let text = write_rpc_document(&ok, WireFormat::Json).expect("json");
    assert_eq!(text, "{\"jsonrpc\":\"2.0\",\"id\":1,\"result\":\"x\"}\n");
    let text = write_rpc_document(&ok, WireFormat::Toon).expect("toon");
    assert!(text.ends_with("\n\n"), "{text:?}");
    assert!(!text.starts_with('{'));
    let fault = JsonRpcResponse::parse_error("bad").to_value();
    assert_eq!(fault["error"]["code"], PARSE_ERROR);
    assert_eq!(fault["id"], serde_json::Value::Null);
    assert!(fault.get("result").is_none());
    let refused = respond_err(&request("m", "{}", None), INVALID_PARAMS, "no").expect("error");
    assert_eq!(refused.to_value()["error"]["message"], "no");
    assert_eq!(stdio_format(true, WireFormat::Json), WireFormat::Toon);
    assert_eq!(stdio_format(false, WireFormat::Json), WireFormat::Json);
}

#[test]
fn toon_records_end_with_a_blank_line() {
    let mut buffer = RecordBuffer::new();
    assert_eq!(buffer.line("a: 1\n"), None);
    assert_eq!(buffer.line("b: 2\n"), None);
    assert_eq!(buffer.line("\n").as_deref(), Some("a: 1\nb: 2"));
    assert_eq!(buffer.line("\n"), None);
    assert_eq!(buffer.line("c: 3"), None);
    assert_eq!(buffer.finish().as_deref(), Some("c: 3"));
}

#[test]
fn http_formats_follow_the_headers() {
    assert_eq!(DEFAULT_BIND, "127.0.0.1:8741");
    assert_eq!(Config::crate_defaults().serve.bind, DEFAULT_BIND);
    assert_eq!(
        request_format(Some("text/toon"), Some(WireFormat::Json)),
        WireFormat::Toon
    );
    assert_eq!(request_format(None, None), WireFormat::Json);
    assert_eq!(
        answer_format(false, None, Some("text/toon"), None, Some(WireFormat::Json)),
        WireFormat::Toon
    );
    let body = rpc_body(
        &JsonRpcResponse::ok(u64_value(1), text_value("x")),
        WireFormat::Json,
    );
    assert_eq!(body.content_type, "application/json");
    assert_eq!(body.body, r#"{"jsonrpc":"2.0","id":1,"result":"x"}"#);
}

fn facts(name: Option<&str>) -> ScopeFacts {
    ScopeFacts {
        is_file: false,
        name: name.map(str::to_owned),
        user: Some("me".to_owned()),
        username: None,
    }
}

#[test]
fn shapes_name_their_scope() {
    let scope = infer_ingest_scope(Shape::ChatGpt, "/d", &facts(Some("a@b"))).expect("chatgpt");
    assert_eq!(scope.service, "agents/chatgpt");
    assert_eq!(scope.account, "me");
    let scope = infer_ingest_scope(Shape::Telegram, "/d", &facts(Some("tele"))).expect("telegram");
    assert_eq!(scope.service, "social/telegram");
    assert_eq!(scope.account, "tele");
    let scope = infer_ingest_scope(Shape::Twitter, "/d", &facts(Some("a@b"))).expect("x");
    assert_eq!(scope.account, "me");
    let scope = infer_ingest_scope(Shape::Obsidian, "/v/vault", &facts(None)).expect("vault");
    assert_eq!(scope.service, "notes/obsidian");
    assert_eq!(scope.account, "vault");
    assert!(matches!(
        infer_ingest_scope(Shape::GrokTree, "/d", &facts(None)),
        Err(Error::MissingXUsername)
    ));
    assert!(matches!(
        infer_ingest_scope(Shape::Zip, "/d.zip", &facts(None)),
        Err(Error::NotGrokExport)
    ));
    assert_eq!(infer_order()[0], Shape::ChatGpt);
    assert_eq!(zip_shape(ZipKind::Grok), Shape::GrokTree);
    assert_eq!(
        process_user_account(Some(""), Some("alt")).expect("alt"),
        "alt"
    );
    assert!(process_user_account(None, None).is_err());
}

fn inferred(service: &str, account: &str) -> InferredScope {
    InferredScope {
        service: service.to_owned(),
        account: account.to_owned(),
    }
}

#[test]
fn inputs_have_to_agree() {
    let both = vec![
        InputScope {
            inferred: Ok(inferred("s", "a")),
            grok_shaped: false,
        },
        InputScope {
            inferred: Ok(inferred("s", "b")),
            grok_shaped: false,
        },
    ];
    assert!(matches!(
        infer_ingest_scope_from_inputs(both, None, None),
        Err(Error::AccountDisagree)
    ));
    let grok = vec![InputScope {
        inferred: Err(Error::MissingXUsername),
        grok_shaped: true,
    }];
    let scope = infer_ingest_scope_from_inputs(grok, None, Some("x")).expect("account flag");
    assert_eq!(scope.service, "agents/grok");
    assert_eq!(scope.account, "x");
    assert!(infer_ingest_scope_from_inputs(Vec::new(), None, None).is_err());
    assert_eq!(
        infer_account_from_backends(&vec![Some("a".to_owned()), Some("a".to_owned())])
            .expect("same"),
        "a"
    );
    assert!(matches!(
        infer_account_from_backends(&vec![Some("a".to_owned()), Some("b".to_owned())]),
        Err(Error::AccountDisagree)
    ));
    assert!(matches!(
        infer_account_from_backends(&Vec::new()),
        Err(Error::NotGrokExport)
    ));
}

#[test]
fn sources_in_a_dump_have_to_agree() {
    let found = vec![
        Err(Error::NotGrokExport),
        Ok(inferred("s", "a")),
        Ok(inferred("s", "a")),
    ];
    let scope = infer_ingest_scope_from_discovered(found).expect("agreed");
    assert_eq!(scope.account, "a");
    assert!(matches!(
        infer_ingest_scope_from_discovered(vec![Ok(inferred("s", "a")), Ok(inferred("t", "a"))]),
        Err(Error::AccountDisagree)
    ));
    assert!(matches!(
        infer_ingest_scope_from_discovered(vec![Err(Error::NotGrokExport)]),
        Err(Error::NotGrokExport)
    ));
    assert!(matches!(
        infer_ingest_scope_from_discovered(vec![Err(Error::MissingXUsername)]),
        Err(Error::MissingXUsername)
    ));
}

fn payload(kind: ZipKind, body: &[u8], is_zip: bool) -> Option<Payload> {
    Some(Payload {
        kind,
        size: 0,
        digest: hash_bytes(body),
        is_zip,
    })
}

#[test]
fn copies_with_a_zip_are_read_once() {
    let v = vec![
        payload(ZipKind::ChatGpt, b"x", false),
        None,
        payload(ZipKind::ChatGpt, b"x", true),
        payload(ZipKind::ChatGpt, b"x", false),
        payload(ZipKind::Grok, b"x", true),
    ];
    assert_eq!(find_copies(&v), [None, None, Some(0), None, None]);
    assert_eq!(
        sizes_that_repeat(&vec![Some(1), None, Some(2), Some(1)]),
        [true, false, false, true]
    );
    let names = vec!["b.json".to_owned(), "a.json".to_owned()];
    let digests = vec![hash_bytes(b"1"), hash_bytes(b"2")];
    let mut bytes = Vec::new();
    for (name, digest) in [("a.json", &digests[1]), ("b.json", &digests[0])] {
        bytes.extend_from_slice(name.as_bytes());
        bytes.push(0);
        bytes.extend_from_slice(&digest.root);
    }
    assert_eq!(
        chatgpt_payload_digest(&names, &digests).root,
        hash_bytes(&bytes).root
    );
}

#[test]
fn home_exports_are_grouped_by_scope() {
    let groups = group_home_exports(
        vec!["/1".to_owned(), "/2".to_owned(), "/3".to_owned()],
        vec![inferred("t", "a"), inferred("s", "b"), inferred("t", "a")],
    );
    assert_eq!(groups.len(), 2);
    assert_eq!(groups[0].service, "s");
    assert_eq!(groups[1].paths, ["/1", "/3"]);
    assert_eq!(
        sorted_once(&vec!["/b".to_owned(), "/a".to_owned(), "/b".to_owned()]),
        ["/a", "/b"]
    );
}

#[test]
fn payloads_are_known_by_kind() {
    assert_eq!(
        source_payload_identity(SourceKind::Zip, Some(ZipKind::Telegram)),
        Some((ZipKind::Telegram, PayloadPart::ResultEntry))
    );
    assert_eq!(
        source_payload_identity(SourceKind::Backend, None),
        Some((ZipKind::Grok, PayloadPart::File))
    );
    assert_eq!(source_payload_identity(SourceKind::Markdown, None), None);
    assert_eq!(backend_part("media_posts"), BackendPart::Spill(Spill::MediaPosts));
    assert_eq!(backend_part("other"), BackendPart::Leftover);
    assert_eq!(backend_part("conversations"), BackendPart::Conversations);
    assert!(ingest_zip(Some(ZipKind::Grok), "/z.zip").is_ok());
    assert!(ingest_zip(None, "/z.zip").is_err());
    assert!(twitter_username_extra(Some("u".to_owned()))
        .get("username")
        .is_some());
    assert!(twitter_username_extra(None).is_empty());
}

const NO_MARKS: FileMarks = FileMarks {
    session_docs: false,
    telegram: false,
    in_chatgpt_dir: false,
    story_cards: false,
};

#[test]
fn files_are_sources_of_a_kind() {
    let kind = |path: &str| discover_file(path, "/d", NO_MARKS).map(|source| source.kind);
    assert_eq!(kind("/d/a.zip").expect("zip"), SourceKind::Zip);
    assert_eq!(
        kind("/d/session_search.sqlite").expect("sqlite"),
        SourceKind::Sqlite
    );
    assert_eq!(kind("/d/a.jsonl").expect("jsonl"), SourceKind::SessionJsonl);
    assert_eq!(kind("/d/a.md").expect("markdown"), SourceKind::Markdown);
    assert_eq!(kind("/d/b.json").expect("backend"), SourceKind::Backend);
    match discover_file("/d/result.json", "/d", NO_MARKS) {
        Err(Error::Ingest(text)) => assert_eq!(
            text,
            "/d/result.json is named result.json but is not a Telegram Desktop export"
        ),
        _ => panic!("no Telegram document"),
    }
    let inside = FileMarks {
        in_chatgpt_dir: true,
        ..NO_MARKS
    };
    let source = discover_file("/d/user.json", "/d", inside).expect("chatgpt");
    assert_eq!(source.kind, SourceKind::ChatGpt);
    assert_eq!(source.path, "/d");
}

#[test]
fn folders_are_asked_in_order() {
    assert_eq!(discover_dir_probes("/d", true)[0], Probe::Backends);
    assert_eq!(walk_sources_probes("/d", true)[1], Probe::ChatHistory);
    let sources = sources_of(Probe::Obsidian, &vec!["/v".to_owned()]);
    assert_eq!(sources[0].kind, SourceKind::Markdown);
    assert!(sources_of(Probe::Obsidian, &Vec::new()).is_empty());
    assert!(is_sqlite_magic(b"SQLite format 3\0"));
    assert!(!is_sqlite_magic(b"SQLite format 2\0"));
}

#[test]
fn scans_stop_at_their_depth() {
    assert_eq!(
        home_step("/h/dir", NodeKind::Directory, 0),
        HomeStep::Ignore
    );
    assert_eq!(
        home_step("/h/dir", NodeKind::Directory, 2),
        HomeStep::Descend
    );
    assert_eq!(
        home_step("/h/.grok", NodeKind::Directory, 0),
        HomeStep::Sessions(false)
    );
    assert_eq!(
        home_step("/h/.grok", NodeKind::Directory, 1),
        HomeStep::Sessions(false)
    );
    assert_eq!(
        home_step("/h/.grok", NodeKind::Directory, 2),
        HomeStep::Sessions(true)
    );
    assert_eq!(home_step("/h/link", NodeKind::Symlink, 2), HomeStep::SkipLink);
    assert_eq!(
        home_step("/h/result.json", NodeKind::File, 0),
        HomeStep::Source
    );
    assert_eq!(home_step("/h/a.zip", NodeKind::File, 0), HomeStep::Zip);
    let config = Config::crate_defaults();
    assert_eq!(
        walk_sources_step("/d/assets", NodeKind::Directory, "/h", &config, None),
        WalkStep::Skip
    );
    assert_eq!(
        walk_sources_step("/d/a.zip", NodeKind::File, "/h", &config, None),
        WalkStep::Zip
    );
}

#[test]
fn zips_are_known_by_their_names() {
    let names = |list: &[&str]| list.iter().map(|name| name.to_string()).collect::<Vec<_>>();
    assert_eq!(
        kind_from_names(&names(&["x/user.json", "x/conversations-1.json"])),
        Some(ZipKind::ChatGpt)
    );
    assert_eq!(
        kind_from_names(&names(&["your_facebook_activity/a.txt"])),
        Some(ZipKind::Facebook)
    );
    assert_eq!(kind_from_names(&names(&["user.json"])), None);
    assert_eq!(
        matching_entries(
            &names(&["conversations-2.json", "x.json", "conversations-1.json"]),
            Wanted::Conversations
        ),
        [2, 0]
    );
    assert_eq!(
        named_entry(&names(&["a/x.json", "b/result.json"]), "result.json"),
        Some(1)
    );
    assert!(is_zip_path("/a/B.ZIP"));
}

fn entry(name: &str, kind: EntryKind, sibling: bool) -> WalkEntry {
    WalkEntry {
        name: name.to_owned(),
        kind,
        sibling,
    }
}

fn data_folder(dir: &str) -> Vec<WalkEntry> {
    match dir {
        "/m" => vec![
            entry("grok", EntryKind::Directory, false),
            entry("b.majestic", EntryKind::File, false),
            entry("a.archive", EntryKind::File, false),
            entry("b.archive", EntryKind::File, true),
            entry("c.majestic.zst", EntryKind::File, false),
            entry("link.majestic", EntryKind::Other, false),
            entry("README.md", EntryKind::File, false),
            entry("memex", EntryKind::Directory, false),
            entry("readme", EntryKind::Directory, false),
            entry("bench-zstd", EntryKind::Directory, false),
        ],
        "/m/grok" => vec![
            entry("deep", EntryKind::Directory, false),
            entry("x.MAJESTIC", EntryKind::File, false),
        ],
        "/m/grok/deep" => vec![entry("y.majestic", EntryKind::File, false)],
        "/m/memex" => vec![entry("no.majestic", EntryKind::File, false)],
        "/m/readme" => vec![entry("neither.majestic", EntryKind::File, false)],
        "/m/bench-zstd" => vec![entry("tmp.majestic", EntryKind::File, false)],
        _ => Vec::new(),
    }
}

#[test]
fn archives_are_listed_without_their_leftovers() {
    assert_eq!(
        list_memex_archives("/m", &data_folder),
        [
            "/m/a.archive",
            "/m/b.majestic",
            "/m/bench-zstd/tmp.majestic",
            "/m/grok/deep/y.majestic",
            "/m/grok/x.MAJESTIC",
        ]
    );
    assert!(list_memex_archives("/gone", &data_folder).is_empty());
    assert_eq!(majestic_sibling("b.archive").as_deref(), Some("b.majestic"));
    assert!(matches!(
        archives_to_search("/m", Vec::new()),
        Err(Error::NoArchives(_))
    ));
}

#[test]
fn the_bench_runs_on_every_uncompressed_archive() {
    assert_eq!(
        collect_uncompressed_archives("/m", &data_folder),
        [
            "/m/a.archive",
            "/m/b.archive",
            "/m/b.majestic",
            "/m/grok/deep/y.majestic",
            "/m/grok/x.MAJESTIC",
            "/m/memex/no.majestic",
            "/m/readme/neither.majestic",
        ]
    );
}

#[test]
fn labels_keep_the_text_of_the_rest() {
    assert_eq!(status_label("/m", "/m/x//y"), "x//y");
    assert_eq!(status_label("/m/", "/m//./x/./y/"), "x/./y");
    assert_eq!(status_label("/m", "/m"), "");
    assert_eq!(status_label("/", "/m//x"), "m//x");
    assert_eq!(status_label(".", "./a/../b"), "a/../b");
    assert_eq!(status_label("", "./a/"), "./a");
    assert_eq!(status_label("", "//"), "/");
    assert_eq!(status_label("/m", "/n//x/"), "/n//x/");
}

fn found_in(path: &str, text: &str) -> ArchiveResult {
    ArchiveResult {
        path: path.to_owned(),
        found: Ok(UniqueHits {
            hits: vec![SearchHit {
                conversation_id: Some("c".to_owned()),
                field: "message",
                snippet: text.to_owned(),
                span_off: 0,
                span_text: text.to_owned(),
            }],
            duplicate_omitted: 1,
        }),
    }
}

#[test]
fn all_archives_are_reported_together() {
    let run = collect_results(
        "/m",
        vec![
            found_in("/m/b.majestic", "same"),
            ArchiveResult {
                path: "/m/x.majestic".to_owned(),
                found: Err(Error::InvalidArchive),
            },
            found_in("/m/a.majestic", "same"),
        ],
    );
    assert_eq!(run.groups.len(), 2);
    assert_eq!(run.groups[0].path, "/m/a.majestic");
    assert_eq!(run.unreadable.len(), 1);
    assert_eq!(run.statuses.len(), 3);
    match &run.statuses[2] {
        SearchStatus::Archive {
            completed,
            total,
            unique_hits,
            ..
        } => {
            assert_eq!((*completed, *total, *unique_hits), (3, 3, 2));
        }
        _ => panic!("an archive"),
    }
    let exec = SearchExec {
        flags: majestic::search::SearchFlags::default(),
        max_count: 0,
        format: SearchFormat::Human,
    };
    let (text, shown) = write_search_all_exec("/m", &run.groups, exec).expect("report");
    assert_eq!(shown, 1);
    assert_eq!(text.matches("same").count(), 1, "{text}");
    assert!(text.contains("a.majestic"), "{text}");
    assert_eq!(status_label("/m", "/m/x/y"), "x/y");
    assert_eq!(section_label("/m", "/m/x/y", SearchOrigin::Archive), "x/y");
    assert_eq!(SearchFormat::parse_name("JSON").expect("json"), SearchFormat::Json);
    assert!(SearchFormat::parse_name("xml").is_err());
}

#[test]
fn objects_keep_the_order_of_their_fields() {
    let fields = with_field(no_fields(), "b", u64_value(1));
    let fields = with_field(fields, "a", u64_value(2));
    let text = serde_json::to_string(&object_of(fields)).expect("text");
    assert_eq!(text, r#"{"b":1,"a":2}"#);
}

#[test]
fn a_context_has_the_config_with_its_tildes_expanded() {
    let mut config = Config::crate_defaults();
    config.memex_dir = "~/data".to_owned();
    config.scan.skip_directories = vec!["~/trash".to_owned(), "/opt".to_owned()];
    config.scan.home_scan_max_depth = 3;
    config.search.ignore_case = true;
    config.search.archive = Some("~/a.majestic".to_owned());
    config.ingest.inputs = vec!["~/in".to_owned()];
    config.zip.max_uncompressed_bytes = 9;
    let context = RpcContext::from_env(Some("/home/u"), Some(config)).expect("home");
    assert_eq!(context.memex_dir, "/home/u/data");
    assert_eq!(context.config.memex_dir, "/home/u/data");
    assert_eq!(context.config.scan.skip_directories, ["/home/u/trash", "/opt"]);
    assert_eq!(context.config.scan.home_scan_max_depth, 3);
    assert!(context.config.search.ignore_case);
    assert_eq!(context.config.search.archive.as_deref(), Some("/home/u/a.majestic"));
    assert_eq!(context.config.ingest.inputs, ["/home/u/in"]);
    assert_eq!(context.config.zip.max_uncompressed_bytes, 9);
    let plain = RpcContext::from_env(Some("/home/u"), None).expect("home");
    assert_eq!(plain.config.memex_dir, "/home/u/memex");
    assert_eq!(plain.config.scan.home_scan_max_depth, 8);
    assert!(matches!(RpcContext::from_env(Some(""), None), Err(Error::HomeUnset)));
    assert!(matches!(RpcContext::from_env(None, None), Err(Error::HomeUnset)));
}
