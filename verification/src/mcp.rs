//! The MCP surface: the local functions as tools.
use vstd::prelude::*;

use crate::json::{
    array_value, bool_value, field, get_field, json_of, jsons, law_object_reads_back, named_fields,
    no_fields, object, object_of, read_json, str_views, strs_value, text_value, texts, with_field,
    Fields, Json, JsonNode,
};
use crate::paths::opt_str;
use crate::rpc::{
    answers, call_local, call_plan, err_reply, id_json, is_opt_reply, is_refusal,
    local_function_methods, method_names, ok_reply, respond_err, respond_ok, unread, CallView,
    JsonRpcRequest, JsonRpcResponse, LocalCall, Refusal, Reply, RpcContext, METHOD_NOT_FOUND,
};
use crate::text::{cat, same_str, trim};
use crate::wire::{
    document, encode_rpc, json_parsed, json_written, parse_rpc_value, toon_parsed, WireFormat,
};
use crate::{error_text, Error};

verus! {

/// Protocol version when the client names none.
pub const MCP_PROTOCOL_VERSION: &'static str = "2024-11-05";

/// What the tool `list_archives` does.
pub const LIST_ARCHIVES_TEXT: &'static str =
    "List *.majestic under $HOME/memex, plus leftover *.archive with no sibling .majestic. Does not list .zst.";

/// What the tool `search` does.
pub const SEARCH_TEXT: &'static str =
    "Search mmap archives under $HOME/memex. Default is every archive. It does not walk $HOME for live export dumps. Optional service+account or archive searches one file. Pattern is a human query unless slash-wrapped /regex/flags (PCRE2, same as rg -P; no pcre2 flag). ignore_case is case insensitive (-i). fixed_strings is a phrase or literal (-F). word_regexp is whole word (-w). Human OR: lizard OR catfooding. Human AND: lizard AND the (bare words are implicit AND). Phrase: \"hello world\". Regex: /Catfooding/i. Hits group identical packed bodies: one snippet plus an occurrences array (archive, conversation_id, field).";

/// The parameter `pattern` of the tool `search`.
pub const SEARCH_PATTERN_TEXT: &'static str =
    "Human query or /regex/flags. OR: lizard OR catfooding. AND: lizard AND the. Phrase: \"hello world\". Regex: /Catfooding/i. -F / fixed_strings is a literal. Case insensitive: ignore_case or /pattern/i. Whole word: word_regexp.";

/// The parameter `ignore_case` of the tool `search`.
pub const SEARCH_IGNORE_CASE_TEXT: &'static str =
    "Case insensitive (Unicode). Default false.";

/// The parameter `fixed_strings` of the tool `search`.
pub const SEARCH_FIXED_STRINGS_TEXT: &'static str =
    "Phrase or literal string (-F). Default false.";

/// The parameter `word_regexp` of the tool `search`.
pub const SEARCH_WORD_REGEXP_TEXT: &'static str =
    "Whole word (-w). Default false.";

/// The parameter `service` of the tool `search`.
pub const SEARCH_SERVICE_TEXT: &'static str =
    "Folder under $HOME/memex, such as agents/grok.";

/// The parameter `account` of the tool `search`.
pub const SEARCH_ACCOUNT_TEXT: &'static str =
    "Username file stem.";

/// The parameter `archive` of the tool `search`.
pub const SEARCH_ARCHIVE_TEXT: &'static str =
    "One archive path. Wins over service and account.";

/// What the tool `stats` does.
pub const STATS_TEXT: &'static str =
    "Archive counts. Needs service+account or archive path. Does not print auth keys.";

/// The parameter `archive` of the tool `stats`.
pub const STATS_ARCHIVE_TEXT: &'static str =
    "One archive path. Wins over service and account.";

/// What the tool `ingest` does.
pub const INGEST_TEXT: &'static str =
    "Ingest Grok dumps, ChatGPT conversations zips and dirs, Facebook DYI, X account archives, Telegram result.json, session JSONL, markdown, Obsidian vaults, agent reports, or session_docs sqlite. Omitting inputs scans $HOME for known export shapes including ChatGPT zips and X archive zips. Omitting service and account infers from input shape. Home scan always infers per source; pass explicit paths to force service or account. Never copy live export JSON into git. Do not ingest grok_oss.db.";

/// The parameter `inputs` of the tool `ingest`.
pub const INGEST_INPUTS_TEXT: &'static str =
    "Export directories, zips, prod-grok-backend.json, ChatGPT conversations-*.json, Facebook DYI, X account archives (data/account.js), Telegram result.json, grok-oss session JSONL, markdown dirs, Obsidian vaults, .agents/reports, or session_search.sqlite. Omit to scan $HOME (max 8 directory levels).";

/// The parameter `output` of the tool `ingest`.
pub const INGEST_OUTPUT_TEXT: &'static str =
    "Output path. Wins over service, account, and shape inference. Error with a home scan (many archives).";

/// What the tool `scoped_path` does.
pub const SCOPED_PATH_TEXT: &'static str =
    "Resolve service folder plus account stem to an archive path under $HOME/memex.";

/// What the tool `infer_grok_export` does.
pub const INFER_GROK_EXPORT_TEXT: &'static str =
    "Infer service agents/grok and the account file stem from an official Grok dump (user.xUsername). Do not print a live username.";

/// The parameter `input` of the tool `infer_grok_export`.
pub const INFER_GROK_EXPORT_INPUT_TEXT: &'static str =
    "Export directory or backend JSON path.";

/// A parameter of a tool.
pub open spec fn property(kind: Seq<char>, text: Option<Seq<char>>) -> Json {
    match text {
        Some(t) => object(seq![("type"@, Json::Text(kind)), ("description"@, Json::Text(t))]),
        None => object(seq![("type"@, Json::Text(kind))]),
    }
}

/// A parameter that is a list of paths.
pub open spec fn paths_property(text: Seq<char>) -> Json {
    object(
        seq![
            ("type"@, Json::Text("array"@)),
            ("items"@, property("string"@, None)),
            ("description"@, Json::Text(text)),
        ],
    )
}

/// The parameters of a tool, and those that it needs.
pub open spec fn schema(properties: Seq<(Seq<char>, Json)>, required: Seq<Seq<char>>) -> Json {
    let head = seq![("type"@, Json::Text("object"@)), ("properties"@, object(properties))];
    if required.len() == 0 {
        object(head)
    } else {
        object(head.push(("required"@, texts(required))))
    }
}

/// A tool.
pub open spec fn tool(name: Seq<char>, text: Seq<char>, input: Json) -> Json {
    object(
        seq![
            ("name"@, Json::Text(name)),
            ("description"@, Json::Text(text)),
            ("inputSchema"@, input),
        ],
    )
}

fn property_value(kind: &str, text: Option<&str>) -> (r: serde_json::Value)
    ensures
        json_of(r) == property(kind@, opt_str(text)),
{
    let v = with_field(no_fields(), "type", text_value(kind));
    match text {
        Some(t) => {
            let v = with_field(v, "description", text_value(t));
            proof {
                assert(named_fields(v@) =~= seq![
                    ("type"@, Json::Text(kind@)),
                    ("description"@, Json::Text(t@)),
                ]);
            }
            object_of(v)
        },
        None => {
            proof {
                assert(named_fields(v@) =~= seq![("type"@, Json::Text(kind@))]);
            }
            object_of(v)
        },
    }
}

fn paths_property_value(text: &str) -> (r: serde_json::Value)
    ensures
        json_of(r) == paths_property(text@),
{
    let v = with_field(no_fields(), "type", text_value("array"));
    let v = with_field(v, "items", property_value("string", None));
    let v = with_field(v, "description", text_value(text));
    proof {
        assert(named_fields(v@) =~= seq![
            ("type"@, Json::Text("array"@)),
            ("items"@, property("string"@, None)),
            ("description"@, Json::Text(text@)),
        ]);
    }
    object_of(v)
}

fn schema_value(properties: Fields, required: &Vec<&'static str>) -> (r: serde_json::Value)
    ensures
        json_of(r) == schema(named_fields(properties@), str_views(required@)),
{
    let ghost props = named_fields(properties@);
    let v = with_field(no_fields(), "type", text_value("object"));
    let v = with_field(v, "properties", object_of(properties));
    let ghost head = seq![("type"@, Json::Text("object"@)), ("properties"@, object(props))];
    proof {
        assert(named_fields(v@) =~= head);
        assert(str_views(required@).len() == required@.len());
    }
    if required.len() == 0 {
        return object_of(v);
    }
    let v = with_field(v, "required", strs_value(required));
    object_of(v)
}

fn tool_value(name: &str, text: &str, input: serde_json::Value) -> (r: serde_json::Value)
    ensures
        json_of(r) == tool(name@, text@, json_of(input)),
{
    let ghost given = json_of(input);
    let v = with_field(no_fields(), "name", text_value(name));
    let v = with_field(v, "description", text_value(text));
    let v = with_field(v, "inputSchema", input);
    proof {
        assert(named_fields(v@) =~= seq![
            ("name"@, Json::Text(name@)),
            ("description"@, Json::Text(text@)),
            ("inputSchema"@, given),
        ]);
    }
    object_of(v)
}

/// The tool `list_archives`.
pub open spec fn list_archives_tool() -> Json {
    tool(
        "list_archives"@,
        LIST_ARCHIVES_TEXT@,
        schema(
            Seq::empty(),
            Seq::empty(),
        ),
    )
}

fn list_archives_tool_value() -> (r: serde_json::Value)
    ensures
        json_of(r) == list_archives_tool(),
{
    let v = no_fields();
    let required: Vec<&'static str> = Vec::new();
    proof {
        assert(named_fields(v@) =~= Seq::<(Seq<char>, Json)>::empty());
        assert(str_views(required@) =~= Seq::<Seq<char>>::empty());
    }
    tool_value("list_archives", LIST_ARCHIVES_TEXT, schema_value(v, &required))
}

/// The tool `search`.
pub open spec fn search_tool() -> Json {
    tool(
        "search"@,
        SEARCH_TEXT@,
        schema(
            seq![
                ("pattern"@, property("string"@, Some(SEARCH_PATTERN_TEXT@))),
                ("ignore_case"@, property("boolean"@, Some(SEARCH_IGNORE_CASE_TEXT@))),
                ("fixed_strings"@, property("boolean"@, Some(SEARCH_FIXED_STRINGS_TEXT@))),
                ("word_regexp"@, property("boolean"@, Some(SEARCH_WORD_REGEXP_TEXT@))),
                ("service"@, property("string"@, Some(SEARCH_SERVICE_TEXT@))),
                ("account"@, property("string"@, Some(SEARCH_ACCOUNT_TEXT@))),
                ("archive"@, property("string"@, Some(SEARCH_ARCHIVE_TEXT@))),
            ],
            seq!["pattern"@],
        ),
    )
}

fn search_tool_value() -> (r: serde_json::Value)
    ensures
        json_of(r) == search_tool(),
{
    let v = no_fields();
    let v = with_field(v, "pattern", property_value("string", Some(SEARCH_PATTERN_TEXT)));
    let v = with_field(v, "ignore_case", property_value("boolean", Some(SEARCH_IGNORE_CASE_TEXT)));
    let v = with_field(v, "fixed_strings", property_value("boolean", Some(SEARCH_FIXED_STRINGS_TEXT)));
    let v = with_field(v, "word_regexp", property_value("boolean", Some(SEARCH_WORD_REGEXP_TEXT)));
    let v = with_field(v, "service", property_value("string", Some(SEARCH_SERVICE_TEXT)));
    let v = with_field(v, "account", property_value("string", Some(SEARCH_ACCOUNT_TEXT)));
    let v = with_field(v, "archive", property_value("string", Some(SEARCH_ARCHIVE_TEXT)));
    let mut required: Vec<&'static str> = Vec::new();
    required.push("pattern");
    proof {
        assert(named_fields(v@) =~= seq![
                ("pattern"@, property("string"@, Some(SEARCH_PATTERN_TEXT@))),
                ("ignore_case"@, property("boolean"@, Some(SEARCH_IGNORE_CASE_TEXT@))),
                ("fixed_strings"@, property("boolean"@, Some(SEARCH_FIXED_STRINGS_TEXT@))),
                ("word_regexp"@, property("boolean"@, Some(SEARCH_WORD_REGEXP_TEXT@))),
                ("service"@, property("string"@, Some(SEARCH_SERVICE_TEXT@))),
                ("account"@, property("string"@, Some(SEARCH_ACCOUNT_TEXT@))),
                ("archive"@, property("string"@, Some(SEARCH_ARCHIVE_TEXT@))),
            ]);
        assert(str_views(required@) =~= seq!["pattern"@]);
    }
    tool_value("search", SEARCH_TEXT, schema_value(v, &required))
}

/// The tool `stats`.
pub open spec fn stats_tool() -> Json {
    tool(
        "stats"@,
        STATS_TEXT@,
        schema(
            seq![
                ("service"@, property("string"@, None)),
                ("account"@, property("string"@, None)),
                ("archive"@, property("string"@, Some(STATS_ARCHIVE_TEXT@))),
            ],
            Seq::empty(),
        ),
    )
}

fn stats_tool_value() -> (r: serde_json::Value)
    ensures
        json_of(r) == stats_tool(),
{
    let v = no_fields();
    let v = with_field(v, "service", property_value("string", None));
    let v = with_field(v, "account", property_value("string", None));
    let v = with_field(v, "archive", property_value("string", Some(STATS_ARCHIVE_TEXT)));
    let required: Vec<&'static str> = Vec::new();
    proof {
        assert(named_fields(v@) =~= seq![
                ("service"@, property("string"@, None)),
                ("account"@, property("string"@, None)),
                ("archive"@, property("string"@, Some(STATS_ARCHIVE_TEXT@))),
            ]);
        assert(str_views(required@) =~= Seq::<Seq<char>>::empty());
    }
    tool_value("stats", STATS_TEXT, schema_value(v, &required))
}

/// The tool `ingest`.
pub open spec fn ingest_tool() -> Json {
    tool(
        "ingest"@,
        INGEST_TEXT@,
        schema(
            seq![
                ("inputs"@, paths_property(INGEST_INPUTS_TEXT@)),
                ("service"@, property("string"@, None)),
                ("account"@, property("string"@, None)),
                ("output"@, property("string"@, Some(INGEST_OUTPUT_TEXT@))),
            ],
            Seq::empty(),
        ),
    )
}

fn ingest_tool_value() -> (r: serde_json::Value)
    ensures
        json_of(r) == ingest_tool(),
{
    let v = no_fields();
    let v = with_field(v, "inputs", paths_property_value(INGEST_INPUTS_TEXT));
    let v = with_field(v, "service", property_value("string", None));
    let v = with_field(v, "account", property_value("string", None));
    let v = with_field(v, "output", property_value("string", Some(INGEST_OUTPUT_TEXT)));
    let required: Vec<&'static str> = Vec::new();
    proof {
        assert(named_fields(v@) =~= seq![
                ("inputs"@, paths_property(INGEST_INPUTS_TEXT@)),
                ("service"@, property("string"@, None)),
                ("account"@, property("string"@, None)),
                ("output"@, property("string"@, Some(INGEST_OUTPUT_TEXT@))),
            ]);
        assert(str_views(required@) =~= Seq::<Seq<char>>::empty());
    }
    tool_value("ingest", INGEST_TEXT, schema_value(v, &required))
}

/// The tool `scoped_path`.
pub open spec fn scoped_path_tool() -> Json {
    tool(
        "scoped_path"@,
        SCOPED_PATH_TEXT@,
        schema(
            seq![
                ("service"@, property("string"@, None)),
                ("account"@, property("string"@, None)),
            ],
            seq!["service"@, "account"@],
        ),
    )
}

fn scoped_path_tool_value() -> (r: serde_json::Value)
    ensures
        json_of(r) == scoped_path_tool(),
{
    let v = no_fields();
    let v = with_field(v, "service", property_value("string", None));
    let v = with_field(v, "account", property_value("string", None));
    let mut required: Vec<&'static str> = Vec::new();
    required.push("service");
    required.push("account");
    proof {
        assert(named_fields(v@) =~= seq![
                ("service"@, property("string"@, None)),
                ("account"@, property("string"@, None)),
            ]);
        assert(str_views(required@) =~= seq!["service"@, "account"@]);
    }
    tool_value("scoped_path", SCOPED_PATH_TEXT, schema_value(v, &required))
}

/// The tool `infer_grok_export`.
pub open spec fn infer_grok_export_tool() -> Json {
    tool(
        "infer_grok_export"@,
        INFER_GROK_EXPORT_TEXT@,
        schema(
            seq![
                ("input"@, property("string"@, Some(INFER_GROK_EXPORT_INPUT_TEXT@))),
            ],
            seq!["input"@],
        ),
    )
}

fn infer_grok_export_tool_value() -> (r: serde_json::Value)
    ensures
        json_of(r) == infer_grok_export_tool(),
{
    let v = no_fields();
    let v = with_field(v, "input", property_value("string", Some(INFER_GROK_EXPORT_INPUT_TEXT)));
    let mut required: Vec<&'static str> = Vec::new();
    required.push("input");
    proof {
        assert(named_fields(v@) =~= seq![
                ("input"@, property("string"@, Some(INFER_GROK_EXPORT_INPUT_TEXT@))),
            ]);
        assert(str_views(required@) =~= seq!["input"@]);
    }
    tool_value("infer_grok_export", INFER_GROK_EXPORT_TEXT, schema_value(v, &required))
}

/// The tools, in the order of the local functions.
pub open spec fn tools() -> Seq<Json> {
    seq![
        list_archives_tool(),
        search_tool(),
        stats_tool(),
        ingest_tool(),
        scoped_path_tool(),
        infer_grok_export_tool(),
    ]
}

/// The tools.
pub fn tool_defs() -> (r: Vec<serde_json::Value>)
    ensures
        jsons(r@) == tools(),
{
    let mut v: Vec<serde_json::Value> = Vec::new();
    v.push(list_archives_tool_value());
    v.push(search_tool_value());
    v.push(stats_tool_value());
    v.push(ingest_tool_value());
    v.push(scoped_path_tool_value());
    v.push(infer_grok_export_tool_value());
    proof {
        assert(jsons(v@) =~= tools());
    }
    v
}

/// A text as the content of an answer.
pub open spec fn content(text: Seq<char>) -> Json {
    Json::Arr(seq![object(seq![("type"@, Json::Text("text"@)), ("text"@, Json::Text(text))])])
}

/// The answer of a tool that did its work.
pub open spec fn tool_success(text: Seq<char>) -> Json {
    object(seq![("content"@, content(text))])
}

/// The answer of a tool that failed.
pub open spec fn tool_failure(text: Seq<char>) -> Json {
    object(seq![("content"@, content(text)), ("isError"@, Json::Bool(true))])
}

fn content_value(text: &str) -> (r: serde_json::Value)
    ensures
        json_of(r) == content(text@),
{
    let v = with_field(no_fields(), "type", text_value("text"));
    let v = with_field(v, "text", text_value(text));
    proof {
        assert(named_fields(v@) =~= seq![
            ("type"@, Json::Text("text"@)),
            ("text"@, Json::Text(text@)),
        ]);
    }
    let mut a: Vec<serde_json::Value> = Vec::new();
    a.push(object_of(v));
    proof {
        assert(jsons(a@) =~= content(text@)->Arr_0);
    }
    array_value(a)
}

fn tool_success_value(text: &str) -> (r: serde_json::Value)
    ensures
        json_of(r) == tool_success(text@),
{
    let v = with_field(no_fields(), "content", content_value(text));
    proof {
        assert(named_fields(v@) =~= seq![("content"@, content(text@))]);
    }
    object_of(v)
}

/// The answer of a tool that failed.
pub fn tool_error(text: &str) -> (r: serde_json::Value)
    ensures
        json_of(r) == tool_failure(text@),
{
    let v = with_field(no_fields(), "content", content_value(text));
    let v = with_field(v, "isError", bool_value(true));
    proof {
        assert(named_fields(v@) =~= seq![
            ("content"@, content(text@)),
            ("isError"@, Json::Bool(true)),
        ]);
    }
    object_of(v)
}

/// The answer to `initialize`: the version that the client asks for, else
/// the own one.
pub open spec fn initialized(params: Json, version: Seq<char>) -> Json {
    let protocol = match field(params, "protocolVersion"@) {
        Some(Json::Text(s)) => s,
        _ => MCP_PROTOCOL_VERSION@,
    };
    object(
        seq![
            ("protocolVersion"@, Json::Text(protocol)),
            ("capabilities"@, object(seq![("tools"@, object(Seq::empty()))])),
            (
                "serverInfo"@,
                object(seq![("name"@, Json::Text("memex"@)), ("version"@, Json::Text(version))]),
            ),
        ],
    )
}

/// The name and version of the server.
pub fn server_info(version: &str) -> (r: serde_json::Value)
    ensures
        json_of(r) == object(
            seq![("name"@, Json::Text("memex"@)), ("version"@, Json::Text(version@))],
        ),
{
    let v = with_field(no_fields(), "name", text_value("memex"));
    let v = with_field(v, "version", text_value(version));
    proof {
        assert(named_fields(v@) =~= seq![
            ("name"@, Json::Text("memex"@)),
            ("version"@, Json::Text(version@)),
        ]);
    }
    object_of(v)
}

/// The string under a key of parameters.
fn string_at(params: &serde_json::Value, key: &str) -> (r: Option<String>)
    ensures
        match r {
            Some(s) => field(json_of(*params), key@) == Some(Json::Text(s@)),
            None => !(field(json_of(*params), key@) is Some && field(json_of(*params), key@)->0
                is Text),
        },
{
    match get_field(params, key) {
        Some(x) => match read_json(x) {
            JsonNode::Text(s) => Some(s),
            _ => None,
        },
        None => None,
    }
}

/// The answer to `initialize`. `version` is that of the program.
pub fn initialize_result(params: &serde_json::Value, version: &str) -> (r: serde_json::Value)
    ensures
        json_of(r) == initialized(json_of(*params), version@),
{
    let ghost p = json_of(*params);
    let asked = string_at(params, "protocolVersion");
    let protocol = match &asked {
        Some(s) => s.as_str(),
        None => MCP_PROTOCOL_VERSION,
    };
    let empty = no_fields();
    proof {
        assert(named_fields(empty@) =~= Seq::<(Seq<char>, Json)>::empty());
    }
    let tools = with_field(no_fields(), "tools", object_of(empty));
    proof {
        assert(named_fields(tools@) =~= seq![("tools"@, object(Seq::empty()))]);
    }
    let v = with_field(no_fields(), "protocolVersion", text_value(protocol));
    let v = with_field(v, "capabilities", object_of(tools));
    let v = with_field(v, "serverInfo", server_info(version));
    proof {
        assert(named_fields(v@) =~= seq![
            ("protocolVersion"@, Json::Text(protocol@)),
            ("capabilities"@, object(seq![("tools"@, object(Seq::empty()))])),
            (
                "serverInfo"@,
                object(seq![("name"@, Json::Text("memex"@)), ("version"@, Json::Text(version@))]),
            ),
        ]);
    }
    object_of(v)
}

/// What a call of a tool comes to.
pub enum ToolStep {
    /// The answer, without any call.
    Answer(Json),
    Call(CallView),
    /// The call is refused.
    Refused(Refusal),
}

/// The arguments of a tool call. None are an empty object.
pub open spec fn arguments(params: Json) -> Json {
    match field(params, "arguments"@) {
        Some(x) => x,
        None => Json::Obj(Seq::empty()),
    }
}

/// What a call of a tool comes to.
pub open spec fn tool_step(memex_dir: Seq<char>, cap: int, params: Json) -> ToolStep {
    if params !is Null && params !is Obj {
        ToolStep::Answer(tool_failure("tools/call params must be an object"@))
    } else {
        match field(params, "name"@) {
            Some(Json::Text(name)) => if !method_names().contains(name) {
                ToolStep::Answer(tool_failure("unknown tool "@ + name))
            } else {
                match call_plan(memex_dir, cap, name, arguments(params)) {
                    Ok(c) => ToolStep::Call(c),
                    Err(e) => ToolStep::Refused(e),
                }
            },
            _ => ToolStep::Answer(tool_failure("tools/call requires name"@)),
        }
    }
}

/// What to do for a request.
pub enum McpStep {
    /// Send this, or nothing.
    Respond(Option<JsonRpcResponse>),
    /// Make this call and send what [`tool_response`] gives.
    Call(LocalCall),
}

/// `s` is what to do for a call of a tool.
pub open spec fn is_tool_step(request: JsonRpcRequest, want: ToolStep, s: McpStep) -> bool {
    match want {
        ToolStep::Answer(j) => match s {
            McpStep::Respond(r) => is_opt_reply(r, ok_reply(request, j)),
            McpStep::Call(_) => false,
        },
        ToolStep::Call(c) => match s {
            McpStep::Call(x) => x@ == c,
            McpStep::Respond(_) => false,
        },
        ToolStep::Refused(refusal) => match s {
            McpStep::Respond(r) => exists|e: Error| #[trigger]
                is_refusal(e, refusal) && is_opt_reply(
                    r,
                    ok_reply(request, tool_failure(error_text(e))),
                ),
            McpStep::Call(_) => false,
        },
    }
}

/// `s` is what to do for a request.
pub open spec fn is_step(
    memex_dir: Seq<char>,
    cap: int,
    version: Seq<char>,
    request: JsonRpcRequest,
    s: McpStep,
) -> bool {
    let method = request.method@;
    let params = json_of(request.params);
    if method == "tools/call"@ {
        is_tool_step(request, tool_step(memex_dir, cap, params), s)
    } else {
        match s {
            McpStep::Call(_) => false,
            McpStep::Respond(r) => is_opt_reply(
                r,
                if method == "initialize"@ {
                    ok_reply(request, initialized(params, version))
                } else if method == "notifications/initialized"@ || method == "initialized"@ {
                    None
                } else if method == "ping"@ {
                    ok_reply(request, object(Seq::empty()))
                } else if method == "tools/list"@ {
                    ok_reply(request, object(seq![("tools"@, Json::Arr(tools()))]))
                } else if id_json(request) is None {
                    None
                } else {
                    Some(err_reply(request, METHOD_NOT_FOUND, "method not found: "@ + method))
                },
            ),
        }
    }
}

/// Whether a name is that of a local function.
pub fn is_local_function(name: &str) -> (r: bool)
    ensures
        r == method_names().contains(name@),
{
    let all = local_function_methods();
    let ghost names = method_names();
    let mut i: usize = 0;
    while i < all.len()
        invariant
            i <= all@.len(),
            str_views(all@) == names,
            names == method_names(),
            forall|k: int| 0 <= k < i ==> #[trigger] names[k] != name@,
        decreases all.len() - i,
    {
        proof {
            assert(names[i as int] == all@[i as int]@);
        }
        if same_str(all[i], name) {
            return true;
        }
        i = i + 1;
    }
    proof {
        assert(names.len() == all@.len());
    }
    false
}

fn call_tool(ctx: &RpcContext, request: &JsonRpcRequest) -> (r: McpStep)
    ensures
        is_tool_step(
            *request,
            tool_step(
                ctx.memex_dir@,
                ctx.config.search.max_count as int,
                json_of(request.params),
            ),
            r,
        ),
{
    match read_json(&request.params) {
        JsonNode::Null => {},
        JsonNode::Object(_) => {},
        _ => {
            return McpStep::Respond(
                respond_ok(request, tool_error("tools/call params must be an object")),
            );
        },
    }
    let name = match string_at(&request.params, "name") {
        Some(s) => s,
        None => {
            return McpStep::Respond(respond_ok(request, tool_error("tools/call requires name")));
        },
    };
    if !is_local_function(&name) {
        return McpStep::Respond(respond_ok(request, tool_error(&cat("unknown tool ", &name))));
    }
    let empty = no_fields();
    let none = object_of(empty);
    proof {
        assert(named_fields(empty@) =~= Seq::<(Seq<char>, Json)>::empty());
    }
    let args = match get_field(&request.params, "arguments") {
        Some(x) => x,
        None => &none,
    };
    match call_local(ctx, &name, args) {
        Ok(c) => McpStep::Call(c),
        Err(e) => McpStep::Respond(respond_ok(request, tool_error(&e.message()))),
    }
}

/// What to do for a request. `version` is that of the program.
pub fn handle_request(ctx: &RpcContext, request: &JsonRpcRequest, version: &str) -> (r: McpStep)
    ensures
        is_step(
            ctx.memex_dir@,
            ctx.config.search.max_count as int,
            version@,
            *request,
            r,
        ),
{
    let method = request.method.as_str();
    proof {
        reveal_strlit("initialize");
        reveal_strlit("notifications/initialized");
        reveal_strlit("initialized");
        reveal_strlit("ping");
        reveal_strlit("tools/list");
        reveal_strlit("tools/call");
        assert("tools/call"@[6] != "tools/list"@[6]);
        assert("tools/call"@[0] != "initialize"@[0]);
    }
    if same_str(method, "initialize") {
        McpStep::Respond(respond_ok(request, initialize_result(&request.params, version)))
    } else if same_str(method, "notifications/initialized") || same_str(method, "initialized") {
        McpStep::Respond(None)
    } else if same_str(method, "ping") {
        let v = no_fields();
        proof {
            assert(named_fields(v@) =~= Seq::<(Seq<char>, Json)>::empty());
        }
        McpStep::Respond(respond_ok(request, object_of(v)))
    } else if same_str(method, "tools/list") {
        let v = with_field(no_fields(), "tools", array_value(tool_defs()));
        proof {
            assert(named_fields(v@) =~= seq![("tools"@, Json::Arr(tools()))]);
        }
        McpStep::Respond(respond_ok(request, object_of(v)))
    } else if same_str(method, "tools/call") {
        call_tool(ctx, request)
    } else {
        match &request.id {
            Some(_) => McpStep::Respond(
                respond_err(request, METHOD_NOT_FOUND, &cat("method not found: ", method)),
            ),
            None => McpStep::Respond(None),
        }
    }
}

/// The response to a tool call that was made.
pub fn tool_response(request: &JsonRpcRequest, outcome: Result<serde_json::Value, Error>) -> (r:
    Option<JsonRpcResponse>)
    ensures
        is_opt_reply(r, answered(*request, outcome)),
{
    let value = match outcome {
        Ok(v) => match encode_rpc(&v, WireFormat::Json) {
            Ok(text) => tool_success_value(&text),
            Err(text) => tool_error(&text),
        },
        Err(e) => tool_error(&e.message()),
    };
    respond_ok(request, value)
}

/// `r` answers a request: at once, or with the outcome of the call that the
/// request asks for.
pub open spec fn is_answer<P: Fn(LocalCall) -> Result<serde_json::Value, Error>>(
    ctx: RpcContext,
    version: Seq<char>,
    perform: P,
    request: JsonRpcRequest,
    r: Option<JsonRpcResponse>,
) -> bool {
    exists|s: McpStep| #[trigger]
        is_step(
            ctx.memex_dir@,
            ctx.config.search.max_count as int,
            version,
            request,
            s,
        ) && (match s {
            McpStep::Respond(x) => r == x,
            McpStep::Call(c) => exists|outcome: Result<serde_json::Value, Error>| #[trigger]
                call_ensures(perform, (c,), outcome) && is_opt_reply(
                    r,
                    answered(request, outcome),
                ),
        })
}

/// The answer to a request whose call has this outcome.
pub open spec fn answered(
    request: JsonRpcRequest,
    outcome: Result<serde_json::Value, Error>,
) -> Option<Reply> {
    ok_reply(
        request,
        match outcome {
            Ok(v) => tool_success(json_written(json_of(v))),
            Err(e) => tool_failure(error_text(e)),
        },
    )
}

/// `r` answers a document. One that is no request is a parse error.
pub open spec fn is_value_answer<
    D: Fn(serde_json::Value) -> Result<JsonRpcRequest, String>,
    P: Fn(LocalCall) -> Result<serde_json::Value, Error>,
>(
    ctx: RpcContext,
    version: Seq<char>,
    decode: D,
    perform: P,
    value: serde_json::Value,
    r: Option<JsonRpcResponse>,
) -> bool {
    exists|q: Result<JsonRpcRequest, String>| #[trigger]
        call_ensures(decode, (value,), q) && (match q {
            Ok(request) => is_answer(ctx, version, perform, request, r),
            Err(e) => is_opt_reply(r, Some(unread(e@))),
        })
}

/// Handles one document. `decode` reads it as a request and `perform` makes
/// the call that a request asks for.
pub fn handle_value<
    D: Fn(serde_json::Value) -> Result<JsonRpcRequest, String>,
    P: Fn(LocalCall) -> Result<serde_json::Value, Error>,
>(ctx: &RpcContext, value: serde_json::Value, version: &str, decode: D, perform: P) -> (r: Option<
    JsonRpcResponse,
>)
    requires
        forall|v: serde_json::Value| call_requires(decode, (v,)),
        forall|c: LocalCall| call_requires(perform, (c,)),
    ensures
        is_value_answer(*ctx, version@, decode, perform, value, r),
{
    let request = match decode(value) {
        Ok(request) => request,
        Err(e) => {
            return Some(JsonRpcResponse::parse_error(&e));
        },
    };
    match handle_request(ctx, &request, version) {
        McpStep::Respond(r) => r,
        McpStep::Call(c) => tool_response(&request, perform(c)),
    }
}

/// Handles one line, which holds a document in JSON or TOON. One that
/// neither parser reads is a parse error.
pub fn handle_line<
    D: Fn(serde_json::Value) -> Result<JsonRpcRequest, String>,
    P: Fn(LocalCall) -> Result<serde_json::Value, Error>,
>(ctx: &RpcContext, line: &str, version: &str, decode: D, perform: P) -> (r: Option<
    JsonRpcResponse,
>)
    requires
        forall|v: serde_json::Value| call_requires(decode, (v,)),
        forall|c: LocalCall| call_requires(perform, (c,)),
    ensures
        match document(line@, json_parsed(trim(line@)), toon_parsed(trim(line@))) {
            Ok((j, _)) => exists|value: serde_json::Value|
                json_of(value) == j && #[trigger] is_value_answer(
                    *ctx,
                    version@,
                    decode,
                    perform,
                    value,
                    r,
                ),
            Err(e) => is_opt_reply(r, Some(unread(e))),
        },
{
    match parse_rpc_value(line) {
        Ok((value, _)) => handle_value(ctx, value, version, decode, perform),
        Err(e) => Some(JsonRpcResponse::parse_error(&e)),
    }
}

/// Every request is answered with its id, and no notification is answered,
/// whether the answer is given at once or after a call. The note that a
/// client is initialized is never answered.
pub proof fn law_requests_are_answered<P: Fn(LocalCall) -> Result<serde_json::Value, Error>>(
    ctx: RpcContext,
    version: Seq<char>,
    perform: P,
    request: JsonRpcRequest,
    r: Option<JsonRpcResponse>,
)
    requires
        is_answer(ctx, version, perform, request, r),
    ensures
        if request.method@ == "notifications/initialized"@ || request.method@ == "initialized"@ {
            r is None
        } else {
            answers(request, r)
        },
{
    reveal_strlit("initialize");
    reveal_strlit("notifications/initialized");
    reveal_strlit("initialized");
    reveal_strlit("tools/call");
    assert("tools/call"@[0] != "initialized"@[0]);
    assert("tools/call"@[0] != "notifications/initialized"@[0]);
    assert("initialize"@.len() != "initialized"@.len());
    assert("initialize"@.len() != "notifications/initialized"@.len());
}

/// There is one tool for each local function, under its name and in its order.
pub proof fn law_tools_are_the_functions(i: int)
    requires
        0 <= i < 6,
    ensures
        tools().len() == method_names().len() == 6,
        field(tools()[i], "name"@) == Some(Json::Text(method_names()[i])),
        field(tools()[i], "description"@) is Some,
        field(tools()[i], "inputSchema"@) is Some,
{
    reveal_strlit("name");
    reveal_strlit("description");
    reveal_strlit("inputSchema");
    assert("name"@[0] == 'n' && "description"@[0] == 'd' && "inputSchema"@[0] == 'i');
    lemma_tool(
        "list_archives"@,
        LIST_ARCHIVES_TEXT@,
        schema(Seq::empty(), Seq::empty()),
    );
    let t = tools()[i];
    assert forall|name: Seq<char>, text: Seq<char>, input: Json| true implies field(
        #[trigger] tool(name, text, input),
        "name"@,
    ) == Some(Json::Text(name)) && field(tool(name, text, input), "description"@) is Some && field(
        tool(name, text, input),
        "inputSchema"@,
    ) is Some by {
        lemma_tool(name, text, input);
    }
    assert(t == list_archives_tool() || t == search_tool() || t == stats_tool() || t == ingest_tool()
        || t == scoped_path_tool() || t == infer_grok_export_tool());
}

proof fn lemma_tool(name: Seq<char>, text: Seq<char>, input: Json)
    ensures
        field(tool(name, text, input), "name"@) == Some(Json::Text(name)),
        field(tool(name, text, input), "description"@) == Some(Json::Text(text)),
        field(tool(name, text, input), "inputSchema"@) == Some(input),
{
    reveal_strlit("name");
    reveal_strlit("description");
    reveal_strlit("inputSchema");
    assert("name"@[0] == 'n' && "description"@[0] == 'd' && "inputSchema"@[0] == 'i');
    let fs = seq![
        ("name"@, Json::Text(name)),
        ("description"@, Json::Text(text)),
        ("inputSchema"@, input),
    ];
    law_object_reads_back(fs, 0, "x"@);
    law_object_reads_back(fs, 1, "x"@);
    law_object_reads_back(fs, 2, "x"@);
}

/// What a tool needs: a search its pattern, a scoped path its service and its
/// account, an inference its input. The other tools need nothing.
pub proof fn law_required_arguments()
    ensures
        field(field(search_tool(), "inputSchema"@)->0, "required"@) == Some(
            Json::Arr(seq![Json::Text("pattern"@)]),
        ),
        field(field(scoped_path_tool(), "inputSchema"@)->0, "required"@) == Some(
            Json::Arr(seq![Json::Text("service"@), Json::Text("account"@)]),
        ),
        field(field(infer_grok_export_tool(), "inputSchema"@)->0, "required"@) == Some(
            Json::Arr(seq![Json::Text("input"@)]),
        ),
        field(field(list_archives_tool(), "inputSchema"@)->0, "required"@) is None,
        field(field(stats_tool(), "inputSchema"@)->0, "required"@) is None,
        field(field(ingest_tool(), "inputSchema"@)->0, "required"@) is None,
{
    assert forall|name: Seq<char>, text: Seq<char>, input: Json| true implies field(
        #[trigger] tool(name, text, input),
        "inputSchema"@,
    ) == Some(input) by {
        lemma_tool(name, text, input);
    }
    assert forall|fs: Seq<(Seq<char>, Json)>, r: Seq<Seq<char>>| true implies field(
        #[trigger] schema(fs, r),
        "required"@,
    ) == (if r.len() == 0 {
        None
    } else {
        Some(texts(r))
    }) by {
        lemma_schema(fs, r);
    }
    assert(texts(seq!["pattern"@]) == Json::Arr(seq![Json::Text("pattern"@)])) by {
        assert(texts(seq!["pattern"@])->Arr_0 =~= seq![Json::Text("pattern"@)]);
    }
    assert(texts(seq!["input"@]) == Json::Arr(seq![Json::Text("input"@)])) by {
        assert(texts(seq!["input"@])->Arr_0 =~= seq![Json::Text("input"@)]);
    }
    assert(texts(seq!["service"@, "account"@]) == Json::Arr(
        seq![Json::Text("service"@), Json::Text("account"@)],
    )) by {
        assert(texts(seq!["service"@, "account"@])->Arr_0 =~= seq![
            Json::Text("service"@),
            Json::Text("account"@),
        ]);
    }
}

proof fn lemma_schema(fs: Seq<(Seq<char>, Json)>, r: Seq<Seq<char>>)
    ensures
        field(schema(fs, r), "required"@) == (if r.len() == 0 {
            None
        } else {
            Some(texts(r))
        }),
        field(schema(fs, r), "properties"@) == Some(object(fs)),
{
    reveal_strlit("type");
    reveal_strlit("properties");
    reveal_strlit("required");
    assert("type"@[0] == 't' && "properties"@[0] == 'p' && "required"@[0] == 'r');
    let head = seq![("type"@, Json::Text("object"@)), ("properties"@, object(fs))];
    let all = head.push(("required"@, texts(r)));
    law_object_reads_back(head, 1, "required"@);
    law_object_reads_back(all, 1, "x"@);
    law_object_reads_back(all, 2, "x"@);
}

/// A tool call asks for the local function that it names, with its arguments.
/// An unknown name, and a call without one, are answered as errors.
pub proof fn law_tool_calls(
    memex_dir: Seq<char>,
    cap: int,
    fs: Seq<(Seq<char>, Json)>,
    name: Seq<char>,
    args: Seq<(Seq<char>, Json)>,
    c: CallView,
)
    ensures
        field(Json::Obj(fs), "name"@) == Some(Json::Text(name)) && field(Json::Obj(fs), "arguments"@)
            == Some(Json::Obj(args)) && method_names().contains(name) && call_plan(
            memex_dir,
            cap,
            name,
            Json::Obj(args),
        ) == Ok::<CallView, Refusal>(c) ==> tool_step(memex_dir, cap, Json::Obj(fs))
            == ToolStep::Call(c),
        field(Json::Obj(fs), "name"@) == Some(Json::Text(name)) && !method_names().contains(name)
            ==> tool_step(memex_dir, cap, Json::Obj(fs)) is Answer && field(
            tool_step(memex_dir, cap, Json::Obj(fs))->Answer_0,
            "isError"@,
        ) == Some(Json::Bool(true)),
        field(Json::Obj(fs), "name"@) is None ==> tool_step(memex_dir, cap, Json::Obj(fs)) is Answer
            && field(tool_step(memex_dir, cap, Json::Obj(fs))->Answer_0, "isError"@) == Some(
            Json::Bool(true),
        ),
        field(tool_success(name), "isError"@) is None,
        field(tool_success(name), "content"@) is Some,
        field(tool_success(name), "content"@) == field(tool_failure(name), "content"@),
        field(tool_success(name), "content"@)->0 is Arr,
        field(field(tool_success(name), "content"@)->0->Arr_0[0], "text"@) == Some(Json::Text(name)),
        field(field(tool_success(name), "content"@)->0->Arr_0[0], "type"@) == Some(
            Json::Text("text"@),
        ),
{
    lemma_answers("unknown tool "@ + name);
    lemma_answers("tools/call requires name"@);
    lemma_answers(name);
}

proof fn lemma_answers(text: Seq<char>)
    ensures
        field(tool_failure(text), "isError"@) == Some(Json::Bool(true)),
        field(tool_failure(text), "content"@) == Some(content(text)),
        field(tool_success(text), "isError"@) is None,
        field(tool_success(text), "content"@) == Some(content(text)),
        content(text) is Arr,
        content(text)->Arr_0.len() == 1,
        field(content(text)->Arr_0[0], "text"@) == Some(Json::Text(text)),
        field(content(text)->Arr_0[0], "type"@) == Some(Json::Text("text"@)),
{
    reveal_strlit("content");
    reveal_strlit("isError");
    reveal_strlit("type");
    reveal_strlit("text");
    assert("content"@[0] == 'c' && "isError"@[0] == 'i' && "type"@[1] == 'y' && "text"@[1] == 'e');
    let a = seq![("content"@, content(text)), ("isError"@, Json::Bool(true))];
    let b = seq![("content"@, content(text))];
    let c = seq![("type"@, Json::Text("text"@)), ("text"@, Json::Text(text))];
    law_object_reads_back(a, 0, "x"@);
    law_object_reads_back(a, 1, "x"@);
    law_object_reads_back(b, 0, "isError"@);
    law_object_reads_back(c, 0, "x"@);
    law_object_reads_back(c, 1, "x"@);
}

/// An initialized server speaks the protocol that the caller names, else its
/// own, and says who it is.
pub proof fn law_initialize(params: Json, version: Seq<char>, p: Seq<char>)
    ensures
        field(params, "protocolVersion"@) == Some(Json::Text(p)) ==> field(
            initialized(params, version),
            "protocolVersion"@,
        ) == Some(Json::Text(p)),
        field(params, "protocolVersion"@) is None ==> field(
            initialized(params, version),
            "protocolVersion"@,
        ) == Some(Json::Text("2024-11-05"@)),
        field(initialized(params, version), "serverInfo"@) is Some,
        field(field(initialized(params, version), "serverInfo"@)->0, "name"@) == Some(
            Json::Text("memex"@),
        ),
        field(field(initialized(params, version), "serverInfo"@)->0, "version"@) == Some(
            Json::Text(version),
        ),
        field(initialized(params, version), "capabilities"@) is Some,
        field(field(initialized(params, version), "capabilities"@)->0, "tools"@) is Some,
{
    reveal_strlit("protocolVersion");
    reveal_strlit("capabilities");
    reveal_strlit("serverInfo");
    reveal_strlit("name");
    reveal_strlit("version");
    assert("protocolVersion"@[0] == 'p' && "capabilities"@[0] == 'c' && "serverInfo"@[0] == 's'
        && "name"@[0] == 'n' && "version"@[0] == 'v');
    let protocol = match field(params, "protocolVersion"@) {
        Some(Json::Text(s)) => s,
        _ => MCP_PROTOCOL_VERSION@,
    };
    let caps = seq![("tools"@, object(Seq::empty()))];
    let info = seq![("name"@, Json::Text("memex"@)), ("version"@, Json::Text(version))];
    let all = seq![
        ("protocolVersion"@, Json::Text(protocol)),
        ("capabilities"@, object(caps)),
        ("serverInfo"@, object(info)),
    ];
    law_object_reads_back(all, 0, "x"@);
    law_object_reads_back(all, 1, "x"@);
    law_object_reads_back(all, 2, "x"@);
    law_object_reads_back(caps, 0, "x"@);
    law_object_reads_back(info, 0, "x"@);
    law_object_reads_back(info, 1, "x"@);
}

} // verus!
