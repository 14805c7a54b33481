//! JSON-RPC 2.0 types and the local functions behind every RPC surface.
//!
//! A call is planned here: parameters become a [`LocalCall`]. The caller
//! opens the files that it names, and the result functions build the answer.
use vstd::prelude::*;

use crate::catalog::ArchiveStats;
use crate::config::{config_expanded, expanded, is_default, Config};
use crate::infer::InferredScope;
use crate::json::{
    array_value, count_value, field, get_field, i64_value, json_of, jsons, law_object_reads_back,
    named_fields, no_fields, null_value, object, object_of, read_json, str_views, text_value,
    texts, texts_value, u64_value, with_field, Json, JsonNode,
};
use crate::memex::{home_dir, scoped_archive_path, scoped_fault, scoped_path};
use crate::pack::IngestReport;
use crate::paths::opt_view;
use crate::report::{hits_json, hits_value};
use crate::search::{SearchFlags, SearchSnippetGroup};
use crate::text::{cat, ends_with, same_str, trim, trimmed, views};
use crate::wire::{encode_rpc, encoded, WireFormat};
use crate::{error_text, Error};

verus! {

/// Parse error.
pub const PARSE_ERROR: i64 = -32700;

/// Method not found.
pub const METHOD_NOT_FOUND: i64 = -32601;

/// Invalid params.
pub const INVALID_PARAMS: i64 = -32602;

/// Application error.
pub const APPLICATION_ERROR: i64 = -32000;

/// The names of the local functions.
pub open spec fn method_names() -> Seq<Seq<char>> {
    seq![
        "list_archives"@,
        "search"@,
        "stats"@,
        "ingest"@,
        "scoped_path"@,
        "infer_grok_export"@,
    ]
}

/// The names of the local functions. Tools and methods use these.
pub fn local_function_methods() -> (r: Vec<&'static str>)
    ensures
        str_views(r@) == method_names(),
{
    let mut v: Vec<&'static str> = Vec::new();
    v.push("list_archives");
    v.push("search");
    v.push("stats");
    v.push("ingest");
    v.push("scoped_path");
    v.push("infer_grok_export");
    proof {
        assert(str_views(v@) =~= method_names());
    }
    v
}

/// Home and config that archives are resolved with.
pub struct RpcContext {
    /// Home directory. A home scan walks it.
    pub home: String,
    /// Archive directory.
    pub memex_dir: String,
    /// The config after tilde expansion.
    pub config: Config,
    /// Answers are TOON.
    pub prefer_toon: bool,
}

impl RpcContext {
    /// This home and the default config.
    pub fn new(home: &str) -> (r: RpcContext)
        ensures
            r.home@ == home@,
            r.memex_dir@ == expanded("~/memex"@, home@),
            r.memex_dir@ == r.config.memex_dir@,
            exists|c: Config| #[trigger] is_default(c) && config_expanded(c, home@, r.config),
            !r.prefer_toon,
    {
        let config = Config::crate_defaults();
        let ghost defaults = config;
        let r = RpcContext::from_home_and_config(home, config);
        assert(is_default(defaults) && config_expanded(defaults, home@, r.config));
        r
    }

    /// This home and this config. Tildes in the config are expanded.
    pub fn from_home_and_config(home: &str, config: Config) -> (r: RpcContext)
        ensures
            r.home@ == home@,
            r.memex_dir@ == expanded(config.memex_dir@, home@),
            r.memex_dir@ == r.config.memex_dir@,
            config_expanded(config, home@, r.config),
            !r.prefer_toon,
    {
        let mut config = config;
        config.expand_tildes(home);
        RpcContext {
            home: home.to_owned(),
            memex_dir: config.memex_dir.clone(),
            config,
            prefer_toon: false,
        }
    }

    /// Whether answers are TOON.
    pub fn with_prefer_toon(self, prefer_toon: bool) -> (r: RpcContext)
        ensures
            r == (RpcContext { prefer_toon, ..self }),
    {
        RpcContext { prefer_toon, ..self }
    }

    /// The context of a process. `home` is the variable `HOME`, and `config`
    /// the loaded config, if it could be loaded.
    pub fn from_env(home: Option<&str>, config: Option<Config>) -> (r: Result<RpcContext, Error>)
        ensures
            match r {
                Ok(c) => {
                    &&& home is Some && home->0@.len() > 0
                    &&& c.home@ == home->0@
                    &&& c.memex_dir@ == expanded(
                        match config {
                            Some(given) => given.memex_dir@,
                            None => "~/memex"@,
                        },
                        home->0@,
                    )
                    &&& c.memex_dir@ == c.config.memex_dir@
                    &&& match config {
                        Some(given) => config_expanded(given, home->0@, c.config),
                        None => exists|d: Config| #[trigger]
                            is_default(d) && config_expanded(d, home->0@, c.config),
                    }
                    &&& !c.prefer_toon
                },
                Err(e) => (home is None || home->0@.len() == 0) && e == Error::HomeUnset,
            },
    {
        let home = match home_dir(home) {
            Ok(h) => h,
            Err(e) => {
                return Err(e);
            },
        };
        let used = match config {
            Some(c) => c,
            None => Config::crate_defaults(),
        };
        Ok(RpcContext::from_home_and_config(&home, used))
    }
}

/// One request.
pub struct JsonRpcRequest {
    pub jsonrpc: Option<String>,
    pub id: Option<serde_json::Value>,
    pub method: String,
    pub params: serde_json::Value,
}

/// An error.
#[derive(Debug, Clone, PartialEq, Eq)]
pub struct JsonRpcErrorObject {
    pub code: i64,
    pub message: String,
}

/// One response.
pub struct JsonRpcResponse {
    pub jsonrpc: String,
    pub id: serde_json::Value,
    pub result: Option<serde_json::Value>,
    pub error: Option<JsonRpcErrorObject>,
}

/// What a response holds.
pub enum Reply {
    Success { id: Json, result: Json },
    Failure { id: Json, code: i64, message: Seq<char> },
}

/// `r` is the response.
pub open spec fn is_reply(r: JsonRpcResponse, reply: Reply) -> bool {
    &&& r.jsonrpc@ == "2.0"@
    &&& match reply {
        Reply::Success { id, result } => {
            &&& json_of(r.id) == id
            &&& r.result is Some && json_of(r.result->0) == result
            &&& r.error is None
        },
        Reply::Failure { id, code, message } => {
            &&& json_of(r.id) == id
            &&& r.result is None
            &&& r.error is Some && r.error->0.code == code && r.error->0.message@ == message
        },
    }
}

/// The response to `reply`, or none.
pub open spec fn is_opt_reply(r: Option<JsonRpcResponse>, reply: Option<Reply>) -> bool {
    match r {
        Some(x) => reply is Some && is_reply(x, reply->0),
        None => reply is None,
    }
}

/// The response to a document that is no request. Its id is null.
pub open spec fn unread(message: Seq<char>) -> Reply {
    Reply::Failure { id: Json::Null, code: PARSE_ERROR, message }
}

/// A response as a document.
pub open spec fn reply_json(reply: Reply) -> Json {
    match reply {
        Reply::Success { id, result } => object(
            seq![("jsonrpc"@, Json::Text("2.0"@)), ("id"@, id), ("result"@, result)],
        ),
        Reply::Failure { id, code, message } => object(
            seq![
                ("jsonrpc"@, Json::Text("2.0"@)),
                ("id"@, id),
                (
                    "error"@,
                    object(
                        seq![("code"@, Json::Int(code as int)), ("message"@, Json::Text(message))],
                    ),
                ),
            ],
        ),
    }
}

impl JsonRpcResponse {
    /// A success.
    pub fn ok(id: serde_json::Value, result: serde_json::Value) -> (r: JsonRpcResponse)
        ensures
            is_reply(r, (Reply::Success { id: json_of(id), result: json_of(result) })),
    {
        JsonRpcResponse { jsonrpc: "2.0".to_owned(), id, result: Some(result), error: None }
    }

    /// An error.
    pub fn err(id: serde_json::Value, code: i64, message: &str) -> (r: JsonRpcResponse)
        ensures
            is_reply(r, (Reply::Failure { id: json_of(id), code, message: message@ })),
    {
        JsonRpcResponse {
            jsonrpc: "2.0".to_owned(),
            id,
            result: None,
            error: Some(JsonRpcErrorObject { code, message: message.to_owned() }),
        }
    }

    /// A parse error. Its id is null.
    pub fn parse_error(message: &str) -> (r: JsonRpcResponse)
        ensures
            is_reply(r, unread(message@)),
    {
        JsonRpcResponse::err(null_value(), PARSE_ERROR, message)
    }

    /// The response as a document.
    pub fn to_value(&self) -> (r: serde_json::Value)
        ensures
            json_of(r) == response_json(*self),
    {
        let fields = with_field(no_fields(), "jsonrpc", text_value(&self.jsonrpc));
        let fields = with_field(fields, "id", self.id.clone());
        proof {
            assert(named_fields(fields@) =~= seq![
                ("jsonrpc"@, Json::Text(self.jsonrpc@)),
                ("id"@, json_of(self.id)),
            ]);
        }
        let fields = match &self.result {
            Some(x) => with_field(fields, "result", x.clone()),
            None => fields,
        };
        let fields = match &self.error {
            Some(e) => {
                let inner = with_field(no_fields(), "code", i64_value(e.code));
                let inner = with_field(inner, "message", text_value(&e.message));
                proof {
                    assert(named_fields(inner@) =~= seq![
                        ("code"@, Json::Int(e.code as int)),
                        ("message"@, Json::Text(e.message@)),
                    ]);
                }
                with_field(fields, "error", object_of(inner))
            },
            None => fields,
        };
        object_of(fields)
    }
}

/// A response as a document. A result or an error that is not there has no
/// field.
pub open spec fn response_json(r: JsonRpcResponse) -> Json {
    let head = seq![("jsonrpc"@, Json::Text(r.jsonrpc@)), ("id"@, json_of(r.id))];
    let with_result = match r.result {
        Some(x) => head.push(("result"@, json_of(x))),
        None => head,
    };
    object(
        match r.error {
            Some(e) => with_result.push(
                (
                    "error"@,
                    object(
                        seq![
                            ("code"@, Json::Int(e.code as int)),
                            ("message"@, Json::Text(e.message@)),
                        ],
                    ),
                ),
            ),
            None => with_result,
        },
    )
}

/// The document of a success holds its result and no error, that of a
/// failure its error and no result.
pub proof fn law_response_holds_one(r: JsonRpcResponse, reply: Reply)
    requires
        is_reply(r, reply),
    ensures
        response_json(r) == reply_json(reply),
{
    match reply {
        Reply::Success { id, result } => {
            assert(seq![("jsonrpc"@, Json::Text(r.jsonrpc@)), ("id"@, json_of(r.id))].push(
                ("result"@, result),
            ) =~= seq![("jsonrpc"@, Json::Text("2.0"@)), ("id"@, id), ("result"@, result)]);
        },
        Reply::Failure { id, code, message } => {
            let e = object(
                seq![("code"@, Json::Int(code as int)), ("message"@, Json::Text(message))],
            );
            assert(seq![("jsonrpc"@, Json::Text(r.jsonrpc@)), ("id"@, json_of(r.id))].push(
                ("error"@, e),
            ) =~= seq![("jsonrpc"@, Json::Text("2.0"@)), ("id"@, id), ("error"@, e)]);
        },
    }
}

/// What the id of a request holds.
pub open spec fn id_json(request: JsonRpcRequest) -> Option<Json> {
    match request.id {
        Some(x) => Some(json_of(x)),
        None => None,
    }
}

/// The success of a request. A notification has no response.
pub open spec fn ok_reply(request: JsonRpcRequest, result: Json) -> Option<Reply> {
    match id_json(request) {
        Some(id) => Some(Reply::Success { id, result }),
        None => None,
    }
}

/// `r` answers `request`: a request with an id is answered with that id, and
/// a notification is not answered.
pub open spec fn answers(request: JsonRpcRequest, r: Option<JsonRpcResponse>) -> bool {
    match id_json(request) {
        Some(id) => r matches Some(x) && json_of(x.id) == id,
        None => r is None,
    }
}

/// The error of a request.
pub open spec fn err_reply(request: JsonRpcRequest, code: i64, message: Seq<char>) -> Reply {
    Reply::Failure {
        id: match id_json(request) {
            Some(id) => id,
            None => Json::Null,
        },
        code,
        message,
    }
}

/// The code of a product error.
pub open spec fn error_code(e: Error) -> i64 {
    match e {
        Error::UnknownMethod(_) => METHOD_NOT_FOUND,
        Error::InvalidParams(_) => INVALID_PARAMS,
        _ => APPLICATION_ERROR,
    }
}

/// The response to a request, or none for a notification.
pub fn respond_ok(request: &JsonRpcRequest, result: serde_json::Value) -> (r: Option<
    JsonRpcResponse,
>)
    ensures
        is_opt_reply(r, ok_reply(*request, json_of(result))),
{
    match &request.id {
        Some(id) => Some(JsonRpcResponse::ok(id.clone(), result)),
        None => None,
    }
}

/// The error of a request.
pub fn respond_err(request: &JsonRpcRequest, code: i64, message: &str) -> (r: Option<
    JsonRpcResponse,
>)
    ensures
        is_opt_reply(r, Some(err_reply(*request, code, message@))),
{
    let id = match &request.id {
        Some(id) => id.clone(),
        None => null_value(),
    };
    Some(JsonRpcResponse::err(id, code, message))
}

/// The error of a request, for a product error.
pub fn product_rpc_error(request: &JsonRpcRequest, error: &Error) -> (r: Option<JsonRpcResponse>)
    ensures
        is_opt_reply(r, Some(err_reply(*request, error_code(*error), error_text(*error)))),
{
    let code = match error {
        Error::UnknownMethod(_) => METHOD_NOT_FOUND,
        Error::InvalidParams(_) => INVALID_PARAMS,
        _ => APPLICATION_ERROR,
    };
    respond_err(request, code, &error.message())
}

/// An error about the parameters.
pub open spec fn bad_params(e: Error, text: Seq<char>) -> bool {
    match e {
        Error::InvalidParams(m) => m@ == text,
        _ => false,
    }
}

fn params_error(key: &str, rest: &str) -> (r: Error)
    ensures
        bad_params(r, key@ + rest@),
{
    Error::InvalidParams(cat(key, rest))
}

/// The string under a key, or why there is none.
pub open spec fn string_param(j: Json, key: Seq<char>) -> Result<Option<Seq<char>>, Seq<char>> {
    match field(j, key) {
        None | Some(Json::Null) => Ok(None),
        Some(Json::Text(s)) => Ok(Some(s)),
        Some(_) => Err(key + " must be a string"@),
    }
}

/// The string under a key.
pub fn opt_str_param(params: &serde_json::Value, key: &str) -> (r: Result<Option<String>, Error>)
    ensures
        match r {
            Ok(s) => string_param(json_of(*params), key@) == Ok::<
                Option<Seq<char>>,
                Seq<char>,
            >(opt_view(s)),
            Err(e) => string_param(json_of(*params), key@) is Err && bad_params(
                e,
                string_param(json_of(*params), key@)->Err_0,
            ),
        },
{
    match get_field(params, key) {
        None => Ok(None),
        Some(x) => match read_json(x) {
            JsonNode::Null => Ok(None),
            JsonNode::Text(s) => Ok(Some(s)),
            _ => Err(params_error(key, " must be a string")),
        },
    }
}

/// The string that a key must have, or why it is missing.
pub open spec fn required_string(j: Json, key: Seq<char>) -> Result<Seq<char>, Seq<char>> {
    match field(j, key) {
        Some(Json::Text(s)) => Ok(s),
        Some(_) => Err(key + " must be a string"@),
        None => Err("missing "@ + key),
    }
}

/// The string that a key must have.
pub fn req_str(params: &serde_json::Value, key: &str) -> (r: Result<String, Error>)
    ensures
        match r {
            Ok(s) => required_string(json_of(*params), key@) == Ok::<Seq<char>, Seq<char>>(s@),
            Err(e) => required_string(json_of(*params), key@) is Err && bad_params(
                e,
                required_string(json_of(*params), key@)->Err_0,
            ),
        },
{
    match get_field(params, key) {
        Some(x) => match read_json(x) {
            JsonNode::Text(s) => Ok(s),
            _ => Err(params_error(key, " must be a string")),
        },
        None => Err(Error::InvalidParams(cat("missing ", key))),
    }
}

/// The truth value under a key, or why there is none.
pub open spec fn bool_param(j: Json, key: Seq<char>) -> Result<Option<bool>, Seq<char>> {
    match field(j, key) {
        None | Some(Json::Null) => Ok(None),
        Some(Json::Bool(b)) => Ok(Some(b)),
        Some(_) => Err(key + " must be a boolean"@),
    }
}

/// The truth value under a key.
pub fn opt_bool(params: &serde_json::Value, key: &str) -> (r: Result<Option<bool>, Error>)
    ensures
        match r {
            Ok(b) => bool_param(json_of(*params), key@) == Ok::<Option<bool>, Seq<char>>(b),
            Err(e) => bool_param(json_of(*params), key@) is Err && bad_params(
                e,
                bool_param(json_of(*params), key@)->Err_0,
            ),
        },
{
    match get_field(params, key) {
        None => Ok(None),
        Some(x) => match read_json(x) {
            JsonNode::Null => Ok(None),
            JsonNode::Bool(b) => Ok(Some(b)),
            _ => Err(params_error(key, " must be a boolean")),
        },
    }
}

/// The count under a key, or why there is none.
pub open spec fn count_param(j: Json, key: Seq<char>) -> Result<Option<int>, Seq<char>> {
    match field(j, key) {
        None | Some(Json::Null) => Ok(None),
        Some(Json::Int(n)) => if n < 0 {
            Err(key + " must be a non-negative integer"@)
        } else if n > usize::MAX {
            Err(key + " is too large"@)
        } else {
            Ok(Some(n))
        },
        Some(_) => Err(key + " must be a non-negative integer"@),
    }
}

/// The count under a key.
pub fn opt_usize(params: &serde_json::Value, key: &str) -> (r: Result<Option<usize>, Error>)
    ensures
        match r {
            Ok(n) => count_param(json_of(*params), key@) == Ok::<Option<int>, Seq<char>>(
                match n {
                    Some(x) => Some(x as int),
                    None => None,
                },
            ),
            Err(e) => count_param(json_of(*params), key@) is Err && bad_params(
                e,
                count_param(json_of(*params), key@)->Err_0,
            ),
        },
{
    match get_field(params, key) {
        None => Ok(None),
        Some(x) => match read_json(x) {
            JsonNode::Null => Ok(None),
            JsonNode::Number(_, Some(n), _) => if n > usize::MAX as u64 {
                Err(params_error(key, " is too large"))
            } else {
                Ok(Some(n as usize))
            },
            _ => Err(params_error(key, " must be a non-negative integer")),
        },
    }
}

/// The strings of an array, if all elements are strings.
pub open spec fn all_texts(v: Seq<Json>) -> Option<Seq<Seq<char>>>
    decreases v.len(),
{
    if v.len() == 0 {
        Some(Seq::empty())
    } else {
        match (all_texts(v.drop_last()), v.last()) {
            (Some(head), Json::Text(s)) => Some(head.push(s)),
            _ => None,
        }
    }
}

/// The paths under a key, or why there are none.
pub open spec fn paths_param(j: Json, key: Seq<char>) -> Result<Seq<Seq<char>>, Seq<char>> {
    match field(j, key) {
        None | Some(Json::Null) => Ok(Seq::empty()),
        Some(Json::Arr(v)) => match all_texts(v) {
            Some(s) => Ok(s),
            None => Err(key + " entries must be strings"@),
        },
        Some(_) => Err(key + " must be an array of paths"@),
    }
}

proof fn lemma_all_texts_prefix(v: Seq<Json>, n: int)
    requires
        0 <= n <= v.len(),
        all_texts(v) is Some,
    ensures
        all_texts(v.take(n)) is Some,
    decreases v.len(),
{
    if n < v.len() {
        assert(v.drop_last().take(n) =~= v.take(n));
        lemma_all_texts_prefix(v.drop_last(), n);
    } else {
        assert(v.take(n) =~= v);
    }
}

/// The paths under a key.
pub fn opt_paths(params: &serde_json::Value, key: &str) -> (r: Result<Vec<String>, Error>)
    ensures
        match r {
            Ok(v) => paths_param(json_of(*params), key@) == Ok::<Seq<Seq<char>>, Seq<char>>(
                views(v@),
            ),
            Err(e) => paths_param(json_of(*params), key@) is Err && bad_params(
                e,
                paths_param(json_of(*params), key@)->Err_0,
            ),
        },
{
    let mut out: Vec<String> = Vec::new();
    proof {
        assert(views(out@) =~= Seq::<Seq<char>>::empty());
    }
    match get_field(params, key) {
        None => Ok(out),
        Some(x) => match read_json(x) {
            JsonNode::Null => Ok(out),
            JsonNode::Array(items) => {
                let ghost all = json_of(*x)->Arr_0;
                let mut i: usize = 0;
                proof {
                    assert(all.take(0) =~= Seq::<Json>::empty());
                }
                while i < items.len()
                    invariant
                        i <= items@.len(),
                        field(json_of(*params), key@) == Some(Json::Arr(all)),
                        all.len() == items@.len(),
                        forall|k: int| 0 <= k < all.len() ==> #[trigger] all[k] == json_of(*items@[k]),
                        all_texts(all.take(i as int)) == Some(views(out@)),
                    decreases items.len() - i,
                {
                    proof {
                        assert(all.take(i + 1).drop_last() =~= all.take(i as int));
                        assert(all.take(i + 1).last() == all[i as int]);
                    }
                    match read_json(items[i]) {
                        JsonNode::Text(s) => {
                            let ghost held = views(out@);
                            out.push(s);
                            proof {
                                assert(views(out@) =~= held.push(s@));
                            }
                        },
                        _ => {
                            proof {
                                if all_texts(all) is Some {
                                    lemma_all_texts_prefix(all, i + 1);
                                }
                            }
                            return Err(params_error(key, " entries must be strings"));
                        },
                    }
                    i = i + 1;
                }
                proof {
                    assert(all.take(all.len() as int) =~= all);
                }
                Ok(out)
            },
            _ => Err(params_error(key, " must be an array of paths")),
        },
    }
}

/// What a call of a local function does.
pub enum LocalCall {
    ListArchives,
    /// Search one archive, or all when `archive` is none.
    Search { archive: Option<String>, pattern: String, flags: SearchFlags, max_count: usize },
    Stats { archive: String },
    Ingest {
        inputs: Vec<String>,
        service: Option<String>,
        account: Option<String>,
        output: Option<String>,
    },
    ScopedPath { path: String },
    InferGrokExport { input: String },
}

/// What a call does, as plain values.
pub enum CallView {
    ListArchives,
    Search { archive: Option<Seq<char>>, pattern: Seq<char>, flags: SearchFlags, max_count: int },
    Stats { archive: Seq<char> },
    Ingest {
        inputs: Seq<Seq<char>>,
        service: Option<Seq<char>>,
        account: Option<Seq<char>>,
        output: Option<Seq<char>>,
    },
    ScopedPath { path: Seq<char> },
    InferGrokExport { input: Seq<char> },
}

impl View for LocalCall {
    type V = CallView;

    open spec fn view(&self) -> CallView {
        match self {
            LocalCall::ListArchives => CallView::ListArchives,
            LocalCall::Search { archive, pattern, flags, max_count } => CallView::Search {
                archive: opt_view(*archive),
                pattern: pattern@,
                flags: *flags,
                max_count: *max_count as int,
            },
            LocalCall::Stats { archive } => CallView::Stats { archive: archive@ },
            LocalCall::Ingest { inputs, service, account, output } => CallView::Ingest {
                inputs: views(inputs@),
                service: opt_view(*service),
                account: opt_view(*account),
                output: opt_view(*output),
            },
            LocalCall::ScopedPath { path } => CallView::ScopedPath { path: path@ },
            LocalCall::InferGrokExport { input } => CallView::InferGrokExport { input: input@ },
        }
    }
}

/// A refusal, as plain values.
pub enum Refusal {
    Params(Seq<char>),
    Scope(Seq<char>),
    Unspecified,
    Unknown(Seq<char>),
}

/// `e` is the refusal.
pub open spec fn is_refusal(e: Error, r: Refusal) -> bool {
    match r {
        Refusal::Params(m) => bad_params(e, m),
        Refusal::Scope(m) => match e {
            Error::InvalidScope(t) => t@ == m,
            _ => false,
        },
        Refusal::Unspecified => e == Error::ArchiveUnspecified,
        Refusal::Unknown(m) => match e {
            Error::UnknownMethod(t) => t@ == m,
            _ => false,
        },
    }
}

/// The archive that parameters name: a path, or a service with an account.
/// `None`: they name none.
pub open spec fn target(memex_dir: Seq<char>, j: Json) -> Result<Option<Seq<char>>, Refusal> {
    match string_param(j, "archive"@) {
        Err(m) => Err(Refusal::Params(m)),
        Ok(Some(path)) => Ok(Some(path)),
        Ok(None) => match (string_param(j, "service"@), string_param(j, "account"@)) {
            (Err(m), _) => Err(Refusal::Params(m)),
            (_, Err(m)) => Err(Refusal::Params(m)),
            (Ok(Some(s)), Ok(Some(a))) => match scoped_fault(s, a) {
                Some(m) => Err(Refusal::Scope(m)),
                None => Ok(Some(scoped_path(memex_dir, s, a))),
            },
            (Ok(None), Ok(None)) => Ok(None),
            _ => Err(Refusal::Unspecified),
        },
    }
}

/// What came out, against what should.
pub open spec fn is_target(
    r: Result<Option<String>, Error>,
    want: Result<Option<Seq<char>>, Refusal>,
) -> bool {
    match r {
        Ok(s) => want is Ok && want->Ok_0 == opt_view(s),
        Err(e) => want is Err && is_refusal(e, want->Err_0),
    }
}

/// The archive that parameters name.
pub fn search_target(ctx: &RpcContext, params: &serde_json::Value) -> (r: Result<
    Option<String>,
    Error,
>)
    ensures
        is_target(r, target(ctx.memex_dir@, json_of(*params))),
{
    match opt_str_param(params, "archive") {
        Err(e) => {
            return Err(e);
        },
        Ok(Some(path)) => {
            return Ok(Some(path));
        },
        Ok(None) => {},
    }
    let service = match opt_str_param(params, "service") {
        Ok(s) => s,
        Err(e) => {
            return Err(e);
        },
    };
    let account = match opt_str_param(params, "account") {
        Ok(s) => s,
        Err(e) => {
            return Err(e);
        },
    };
    match service {
        Some(s) => match account {
            Some(a) => match scoped_archive_path(&ctx.memex_dir, &s, &a) {
                Ok(path) => Ok(Some(path)),
                Err(e) => Err(e),
            },
            None => Err(Error::ArchiveUnspecified),
        },
        None => match account {
            Some(_) => Err(Error::ArchiveUnspecified),
            None => Ok(None),
        },
    }
}

/// A flag that may be left out.
pub open spec fn flag(j: Json, key: Seq<char>) -> Result<bool, Seq<char>> {
    match bool_param(j, key) {
        Ok(Some(b)) => Ok(b),
        Ok(None) => Ok(false),
        Err(m) => Err(m),
    }
}

fn flag_param(params: &serde_json::Value, key: &str) -> (r: Result<bool, Error>)
    ensures
        match r {
            Ok(b) => flag(json_of(*params), key@) == Ok::<bool, Seq<char>>(b),
            Err(e) => flag(json_of(*params), key@) is Err && bad_params(
                e,
                flag(json_of(*params), key@)->Err_0,
            ),
        },
{
    match opt_bool(params, key) {
        Ok(Some(b)) => Ok(b),
        Ok(None) => Ok(false),
        Err(e) => Err(e),
    }
}

/// The plan of a search. `cap` is the configured number of groups.
pub open spec fn search_plan(memex_dir: Seq<char>, cap: int, j: Json) -> Result<CallView, Refusal> {
    match required_string(j, "pattern"@) {
        Err(m) => Err(Refusal::Params(m)),
        Ok(pattern) => match (
            flag(j, "ignore_case"@),
            flag(j, "fixed_strings"@),
            flag(j, "word_regexp"@),
            count_param(j, "max_count"@),
        ) {
            (Err(m), _, _, _) => Err(Refusal::Params(m)),
            (_, Err(m), _, _) => Err(Refusal::Params(m)),
            (_, _, Err(m), _) => Err(Refusal::Params(m)),
            (_, _, _, Err(m)) => Err(Refusal::Params(m)),
            (Ok(i), Ok(f), Ok(w), Ok(n)) => match target(memex_dir, j) {
                Ok(archive) => Ok(
                    CallView::Search {
                        archive,
                        pattern,
                        flags: SearchFlags { ignore_case: i, fixed_strings: f, word_regexp: w },
                        max_count: match n {
                            Some(x) => x,
                            None => cap,
                        },
                    },
                ),
                Err(e) => Err(e),
            },
        },
    }
}

/// The plan of an ingest.
pub open spec fn ingest_plan(j: Json) -> Result<CallView, Refusal> {
    match (
        paths_param(j, "inputs"@),
        string_param(j, "service"@),
        string_param(j, "account"@),
        string_param(j, "output"@),
    ) {
        (Err(m), _, _, _) => Err(Refusal::Params(m)),
        (_, Err(m), _, _) => Err(Refusal::Params(m)),
        (_, _, Err(m), _) => Err(Refusal::Params(m)),
        (_, _, _, Err(m)) => Err(Refusal::Params(m)),
        (Ok(inputs), Ok(service), Ok(account), Ok(output)) => Ok(
            CallView::Ingest { inputs, service, account, output },
        ),
    }
}

/// The plan of a path lookup.
pub open spec fn scoped_plan(memex_dir: Seq<char>, j: Json) -> Result<CallView, Refusal> {
    match (required_string(j, "service"@), required_string(j, "account"@)) {
        (Err(m), _) => Err(Refusal::Params(m)),
        (_, Err(m)) => Err(Refusal::Params(m)),
        (Ok(s), Ok(a)) => match scoped_fault(s, a) {
            Some(m) => Err(Refusal::Scope(m)),
            None => Ok(CallView::ScopedPath { path: scoped_path(memex_dir, s, a) }),
        },
    }
}

/// The plan of a call.
pub open spec fn call_plan(memex_dir: Seq<char>, cap: int, method: Seq<char>, j: Json) -> Result<
    CallView,
    Refusal,
> {
    if j !is Null && j !is Obj {
        Err(Refusal::Params("params must be a JSON object"@))
    } else if method == "list_archives"@ {
        Ok(CallView::ListArchives)
    } else if method == "search"@ {
        search_plan(memex_dir, cap, j)
    } else if method == "stats"@ {
        match target(memex_dir, j) {
            Ok(Some(archive)) => Ok(CallView::Stats { archive }),
            Ok(None) => Err(Refusal::Unspecified),
            Err(e) => Err(e),
        }
    } else if method == "ingest"@ {
        ingest_plan(j)
    } else if method == "scoped_path"@ {
        scoped_plan(memex_dir, j)
    } else if method == "infer_grok_export"@ {
        match required_string(j, "input"@) {
            Ok(input) => Ok(CallView::InferGrokExport { input }),
            Err(m) => Err(Refusal::Params(m)),
        }
    } else {
        Err(Refusal::Unknown(method))
    }
}

/// What came out, against what should.
pub open spec fn is_plan(r: Result<LocalCall, Error>, want: Result<CallView, Refusal>) -> bool {
    match r {
        Ok(c) => want is Ok && c@ == want->Ok_0,
        Err(e) => want is Err && is_refusal(e, want->Err_0),
    }
}

fn plan_search(ctx: &RpcContext, params: &serde_json::Value) -> (r: Result<LocalCall, Error>)
    ensures
        is_plan(
            r,
            search_plan(ctx.memex_dir@, ctx.config.search.max_count as int, json_of(*params)),
        ),
{
    let pattern = match req_str(params, "pattern") {
        Ok(s) => s,
        Err(e) => {
            return Err(e);
        },
    };
    let ignore_case = match flag_param(params, "ignore_case") {
        Ok(b) => b,
        Err(e) => {
            return Err(e);
        },
    };
    let fixed_strings = match flag_param(params, "fixed_strings") {
        Ok(b) => b,
        Err(e) => {
            return Err(e);
        },
    };
    let word_regexp = match flag_param(params, "word_regexp") {
        Ok(b) => b,
        Err(e) => {
            return Err(e);
        },
    };
    let max_count: usize = match opt_usize(params, "max_count") {
        Ok(Some(n)) => n,
        Ok(None) => ctx.config.search.max_count,
        Err(e) => {
            return Err(e);
        },
    };
    match search_target(ctx, params) {
        Ok(archive) => Ok(
            LocalCall::Search {
                archive,
                pattern,
                flags: SearchFlags { ignore_case, fixed_strings, word_regexp },
                max_count,
            },
        ),
        Err(e) => Err(e),
    }
}

fn plan_ingest(params: &serde_json::Value) -> (r: Result<LocalCall, Error>)
    ensures
        is_plan(r, ingest_plan(json_of(*params))),
{
    let inputs = match opt_paths(params, "inputs") {
        Ok(v) => v,
        Err(e) => {
            return Err(e);
        },
    };
    let service = match opt_str_param(params, "service") {
        Ok(s) => s,
        Err(e) => {
            return Err(e);
        },
    };
    let account = match opt_str_param(params, "account") {
        Ok(s) => s,
        Err(e) => {
            return Err(e);
        },
    };
    let output = match opt_str_param(params, "output") {
        Ok(s) => s,
        Err(e) => {
            return Err(e);
        },
    };
    Ok(LocalCall::Ingest { inputs, service, account, output })
}

fn plan_scoped(ctx: &RpcContext, params: &serde_json::Value) -> (r: Result<LocalCall, Error>)
    ensures
        is_plan(r, scoped_plan(ctx.memex_dir@, json_of(*params))),
{
    let service = match req_str(params, "service") {
        Ok(s) => s,
        Err(e) => {
            return Err(e);
        },
    };
    let account = match req_str(params, "account") {
        Ok(s) => s,
        Err(e) => {
            return Err(e);
        },
    };
    match scoped_archive_path(&ctx.memex_dir, &service, &account) {
        Ok(path) => Ok(LocalCall::ScopedPath { path }),
        Err(e) => Err(e),
    }
}

/// Plans a call of a local function. Parameters are an object or null.
pub fn call_local(ctx: &RpcContext, method: &str, params: &serde_json::Value) -> (r: Result<
    LocalCall,
    Error,
>)
    ensures
        is_plan(
            r,
            call_plan(
                ctx.memex_dir@,
                ctx.config.search.max_count as int,
                method@,
                json_of(*params),
            ),
        ),
{
    match read_json(params) {
        JsonNode::Null => {},
        JsonNode::Object(_) => {},
        _ => {
            return Err(Error::InvalidParams("params must be a JSON object".to_owned()));
        },
    }
    if same_str(method, "list_archives") {
        Ok(LocalCall::ListArchives)
    } else if same_str(method, "search") {
        plan_search(ctx, params)
    } else if same_str(method, "stats") {
        match search_target(ctx, params) {
            Ok(Some(archive)) => Ok(LocalCall::Stats { archive }),
            Ok(None) => Err(Error::ArchiveUnspecified),
            Err(e) => Err(e),
        }
    } else if same_str(method, "ingest") {
        plan_ingest(params)
    } else if same_str(method, "scoped_path") {
        plan_scoped(ctx, params)
    } else if same_str(method, "infer_grok_export") {
        match req_str(params, "input") {
            Ok(input) => Ok(LocalCall::InferGrokExport { input }),
            Err(e) => Err(e),
        }
    } else {
        Err(Error::UnknownMethod(method.to_owned()))
    }
}

/// Every listed method is planned, and every other name is unknown.
pub proof fn law_methods_are_those_listed(memex_dir: Seq<char>, cap: int, method: Seq<char>)
    ensures
        method_names().contains(method) <==> !(call_plan(memex_dir, cap, method, Json::Null) is Err
            && call_plan(memex_dir, cap, method, Json::Null)->Err_0 is Unknown),
{
    let names = method_names();
    assert(names[0] == "list_archives"@);
    assert(names[1] == "search"@);
    assert(names[2] == "stats"@);
    assert(names[3] == "ingest"@);
    assert(names[4] == "scoped_path"@);
    assert(names[5] == "infer_grok_export"@);
    assert(names.len() == 6);
}

/// The answer to a list of archives.
pub fn list_archives_result(archives: &Vec<String>) -> (r: serde_json::Value)
    ensures
        json_of(r) == object(seq![("archives"@, texts(views(archives@)))]),
{
    let fields = with_field(no_fields(), "archives", texts_value(archives));
    proof {
        assert(named_fields(fields@) =~= seq![("archives"@, texts(views(archives@)))]);
    }
    object_of(fields)
}

/// The answer to a search: at most `max_count` snippet groups, all when it
/// is 0.
pub fn search_result(groups: &Vec<SearchSnippetGroup>, max_count: usize) -> (r: serde_json::Value)
    ensures
        json_of(r) == hits_json(
            groups@,
            if max_count == 0 || groups@.len() <= max_count {
                groups@.len() as int
            } else {
                max_count as int
            },
        ),
{
    let size: usize = groups.len();
    let cap: usize = if max_count == 0 || size <= max_count {
        size
    } else {
        max_count
    };
    hits_value(groups, cap)
}

/// The counts of an archive as a document.
pub open spec fn stats_json(s: ArchiveStats) -> Json {
    object(
        seq![
            ("path"@, Json::Text(s.path@)),
            ("version"@, Json::Int(s.version as int)),
            ("exports"@, Json::Int(s.exports as int)),
            ("conversations"@, Json::Int(s.conversations as int)),
            ("media_posts"@, Json::Int(s.media_posts as int)),
            ("projects"@, Json::Int(s.projects as int)),
            ("tasks"@, Json::Int(s.tasks as int)),
            ("auth_files"@, Json::Int(s.auth_files as int)),
            ("billing_files"@, Json::Int(s.billing_files as int)),
            ("assets"@, Json::Int(s.assets as int)),
            ("payload_bytes"@, Json::Int(s.payload_bytes as int)),
            ("text_bytes"@, Json::Int(s.text_bytes as int)),
            ("spans"@, Json::Int(s.spans as int)),
            ("export_labels"@, texts(views(s.export_labels@))),
        ],
    )
}

/// The answer to a request for counts.
pub fn stats_result(s: &ArchiveStats) -> (r: serde_json::Value)
    ensures
        json_of(r) == stats_json(*s),
{
    let v = with_field(no_fields(), "path", text_value(&s.path));
    let v = with_field(v, "version", u64_value(s.version as u64));
    let v = with_field(v, "exports", count_value(s.exports));
    let v = with_field(v, "conversations", count_value(s.conversations));
    let v = with_field(v, "media_posts", count_value(s.media_posts));
    let v = with_field(v, "projects", count_value(s.projects));
    let v = with_field(v, "tasks", count_value(s.tasks));
    let v = with_field(v, "auth_files", count_value(s.auth_files));
    let v = with_field(v, "billing_files", count_value(s.billing_files));
    let v = with_field(v, "assets", count_value(s.assets));
    let v = with_field(v, "payload_bytes", u64_value(s.payload_bytes));
    let v = with_field(v, "text_bytes", u64_value(s.text_bytes));
    let v = with_field(v, "spans", count_value(s.spans));
    let v = with_field(v, "export_labels", texts_value(&s.export_labels));
    proof {
        assert(named_fields(v@) =~= seq![
            ("path"@, Json::Text(s.path@)),
            ("version"@, Json::Int(s.version as int)),
            ("exports"@, Json::Int(s.exports as int)),
            ("conversations"@, Json::Int(s.conversations as int)),
            ("media_posts"@, Json::Int(s.media_posts as int)),
            ("projects"@, Json::Int(s.projects as int)),
            ("tasks"@, Json::Int(s.tasks as int)),
            ("auth_files"@, Json::Int(s.auth_files as int)),
            ("billing_files"@, Json::Int(s.billing_files as int)),
            ("assets"@, Json::Int(s.assets as int)),
            ("payload_bytes"@, Json::Int(s.payload_bytes as int)),
            ("text_bytes"@, Json::Int(s.text_bytes as int)),
            ("spans"@, Json::Int(s.spans as int)),
            ("export_labels"@, texts(views(s.export_labels@))),
        ]);
    }
    object_of(v)
}

/// The report of one archive as a document.
pub open spec fn report_json(x: IngestReport) -> Json {
    object(
        seq![
            ("output"@, Json::Text(x.output@)),
            ("exports"@, Json::Int(x.exports as int)),
            ("conversations"@, Json::Int(x.conversations as int)),
        ],
    )
}

/// The exports of reports together.
pub open spec fn export_sum(v: Seq<IngestReport>) -> nat
    decreases v.len(),
{
    if v.len() == 0 {
        0
    } else {
        export_sum(v.drop_last()) + v.last().exports as nat
    }
}

/// The conversations of reports together.
pub open spec fn conversation_sum(v: Seq<IngestReport>) -> nat
    decreases v.len(),
{
    if v.len() == 0 {
        0
    } else {
        conversation_sum(v.drop_last()) + v.last().conversations as nat
    }
}

/// The reports of an ingest as a document: one report stands alone, more
/// are listed with their sums.
pub open spec fn reports_json(v: Seq<IngestReport>) -> Json {
    if v.len() == 1 {
        report_json(v[0])
    } else {
        object(
            seq![
                ("reports"@, Json::Arr(Seq::new(v.len(), |i: int| report_json(v[i])))),
                ("exports"@, Json::Int(crate::merge::capped(export_sum(v)) as int)),
                ("conversations"@, Json::Int(crate::merge::capped(conversation_sum(v)) as int)),
            ],
        )
    }
}

fn report_value(x: &IngestReport) -> (r: serde_json::Value)
    ensures
        json_of(r) == report_json(*x),
{
    let v = with_field(no_fields(), "output", text_value(&x.output));
    let v = with_field(v, "exports", count_value(x.exports));
    let v = with_field(v, "conversations", count_value(x.conversations));
    proof {
        assert(named_fields(v@) =~= seq![
            ("output"@, Json::Text(x.output@)),
            ("exports"@, Json::Int(x.exports as int)),
            ("conversations"@, Json::Int(x.conversations as int)),
        ]);
    }
    object_of(v)
}

/// The answer to an ingest.
pub fn ingest_result(reports: &Vec<IngestReport>) -> (r: serde_json::Value)
    ensures
        json_of(r) == reports_json(reports@),
{
    if reports.len() == 1 {
        return report_value(&reports[0]);
    }
    let ghost all = reports@;
    let mut rows: Vec<serde_json::Value> = Vec::new();
    let mut exports: usize = 0;
    let mut conversations: usize = 0;
    let mut i: usize = 0;
    proof {
        assert(all.take(0) =~= Seq::<IngestReport>::empty());
    }
    while i < reports.len()
        invariant
            i <= reports@.len(),
            all == reports@,
            rows@.len() == i,
            forall|k: int| 0 <= k < i ==> json_of(#[trigger] rows@[k]) == report_json(all[k]),
            exports == crate::merge::capped(export_sum(all.take(i as int))),
            conversations == crate::merge::capped(conversation_sum(all.take(i as int))),
        decreases reports.len() - i,
    {
        proof {
            assert(all.take(i + 1).drop_last() =~= all.take(i as int));
        }
        rows.push(report_value(&reports[i]));
        exports = crate::merge::capped_sum(exports, reports[i].exports);
        conversations = crate::merge::capped_sum(conversations, reports[i].conversations);
        i = i + 1;
    }
    let v = with_field(no_fields(), "reports", array_value(rows));
    let v = with_field(v, "exports", count_value(exports));
    let v = with_field(v, "conversations", count_value(conversations));
    proof {
        assert(all.take(all.len() as int) =~= all);
        assert(jsons(rows@) =~= Seq::new(all.len(), |i: int| report_json(all[i])));
        assert(named_fields(v@) =~= seq![
            ("reports"@, Json::Arr(Seq::new(all.len(), |i: int| report_json(all[i])))),
            ("exports"@, Json::Int(exports as int)),
            ("conversations"@, Json::Int(conversations as int)),
        ]);
    }
    object_of(v)
}

/// The answer to a path lookup.
pub fn scoped_path_result(path: &str) -> (r: serde_json::Value)
    ensures
        json_of(r) == object(seq![("path"@, Json::Text(path@))]),
{
    let v = with_field(no_fields(), "path", text_value(path));
    proof {
        assert(named_fields(v@) =~= seq![("path"@, Json::Text(path@))]);
    }
    object_of(v)
}

/// The answer to an inference.
pub fn infer_result(s: &InferredScope) -> (r: serde_json::Value)
    ensures
        json_of(r) == object(
            seq![("service"@, Json::Text(s.service@)), ("account"@, Json::Text(s.account@))],
        ),
{
    let v = with_field(no_fields(), "service", text_value(&s.service));
    let v = with_field(v, "account", text_value(&s.account));
    proof {
        assert(named_fields(v@) =~= seq![
            ("service"@, Json::Text(s.service@)),
            ("account"@, Json::Text(s.account@)),
        ]);
    }
    object_of(v)
}

/// The format of an answer on standard output.
pub fn stdio_format(prefer_toon: bool, request: WireFormat) -> (r: WireFormat)
    ensures
        r == (if prefer_toon {
            WireFormat::Toon
        } else {
            request
        }),
{
    if prefer_toon {
        WireFormat::Toon
    } else {
        request
    }
}

/// A document as it stands on standard output: it ends its line, and TOON is
/// followed by a blank line.
pub open spec fn framed(body: Seq<char>, format: WireFormat) -> Seq<char> {
    let line = if body.len() > 0 && body.last() == '\n' {
        body
    } else {
        body + "\n"@
    };
    match format {
        WireFormat::Json => line,
        WireFormat::Toon => line + "\n"@,
    }
}

/// A document as it stands on standard output.
pub fn frame(body: String, format: WireFormat) -> (r: String)
    ensures
        r@ == framed(body@, format),
{
    let ghost start = body@;
    let mut s = body;
    proof {
        reveal_strlit("\n");
        let n = start.len() as int;
        if n > 0 {
            assert(start.subrange(n - 1, n) =~= seq![start.last()]);
            assert("\n"@ =~= seq!['\n']);
            if seq![start.last()] == seq!['\n'] {
                assert(seq![start.last()][0] == seq!['\n'][0]);
            }
        }
    }
    if !ends_with(&s, "\n") {
        s.push_str("\n");
    }
    if format == WireFormat::Toon {
        s.push_str("\n");
    }
    s
}

/// A response as it stands on standard output.
pub fn write_rpc_document(resp: &JsonRpcResponse, format: WireFormat) -> (r: Result<String, Error>)
    ensures
        match r {
            Ok(s) => encoded(response_json(*resp), format) is Ok && s@ == framed(
                encoded(response_json(*resp), format)->Ok_0,
                format,
            ),
            Err(e) => encoded(response_json(*resp), format) is Err && bad_params(
                e,
                encoded(response_json(*resp), format)->Err_0,
            ),
        },
{
    match encode_rpc(&resp.to_value(), format) {
        Ok(body) => Ok(frame(body, format)),
        Err(e) => Err(Error::InvalidParams(e)),
    }
}

/// TOON records from lines of standard input.
pub struct RecordBuffer {
    pub held: String,
}

/// The record that a blank line, or the end, completes.
pub open spec fn record(held: Seq<char>) -> Option<Seq<char>> {
    if trim(held).len() == 0 {
        None
    } else {
        Some(trim(held))
    }
}

impl RecordBuffer {
    /// Nothing read yet.
    pub fn new() -> (r: RecordBuffer)
        ensures
            r.held@.len() == 0,
    {
        RecordBuffer { held: String::new() }
    }

    /// Reads one line with its end. A blank line completes a record.
    pub fn line(&mut self, line: &str) -> (r: Option<String>)
        ensures
            trim(line@).len() > 0 ==> r is None && final(self).held@ == old(self).held@ + line@,
            trim(line@).len() == 0 ==> opt_view(r) == record(old(self).held@) && final(self).held@
                == (if record(old(self).held@) is Some {
                Seq::empty()
            } else {
                old(self).held@
            }),
    {
        if !trimmed(line).is_empty() {
            self.held.push_str(line);
            return None;
        }
        let text = trimmed(&self.held);
        if text.is_empty() {
            None
        } else {
            self.held = String::new();
            Some(text)
        }
    }

    /// The end of the input.
    pub fn finish(self) -> (r: Option<String>)
        ensures
            opt_view(r) == record(self.held@),
    {
        let text = trimmed(&self.held);
        if text.is_empty() {
            None
        } else {
            Some(text)
        }
    }
}

/// The codes of refused requests: an unreadable request, an unknown method,
/// wrong parameters, and every other failure.
pub proof fn law_error_codes(m: String, message: Seq<char>, e: Error)
    ensures
        unread(message) is Failure && unread(message)->Failure_id == Json::Null,
        unread(message)->code == -32700 && unread(message)->message == message,
        error_code(Error::UnknownMethod(m)) == -32601,
        error_code(Error::InvalidParams(m)) == -32602,
        !(e is UnknownMethod) && !(e is InvalidParams) ==> error_code(e) == -32000,
{
}

/// A reply document holds the version, the id of the request, and either the
/// result or the error with its code and message.
pub proof fn law_reply_document(id: Json, result: Json, code: i64, message: Seq<char>)
    ensures
        ({
            let ok = reply_json(Reply::Success { id, result });
            let bad = reply_json(Reply::Failure { id, code, message });
            &&& field(ok, "jsonrpc"@) == Some(Json::Text("2.0"@))
            &&& field(ok, "id"@) == Some(id)
            &&& field(ok, "result"@) == Some(result)
            &&& field(ok, "error"@) is None
            &&& field(bad, "jsonrpc"@) == Some(Json::Text("2.0"@))
            &&& field(bad, "id"@) == Some(id)
            &&& field(bad, "result"@) is None
            &&& field(bad, "error"@) is Some
            &&& field(field(bad, "error"@)->0, "code"@) == Some(Json::Int(code as int))
            &&& field(field(bad, "error"@)->0, "message"@) == Some(Json::Text(message))
        }),
{
    reveal_strlit("jsonrpc");
    reveal_strlit("id");
    reveal_strlit("result");
    reveal_strlit("error");
    reveal_strlit("code");
    reveal_strlit("message");
    assert("jsonrpc"@[0] == 'j' && "id"@[0] == 'i' && "result"@[0] == 'r' && "error"@[0] == 'e'
        && "code"@[0] == 'c' && "message"@[0] == 'm');
    let a = seq![("jsonrpc"@, Json::Text("2.0"@)), ("id"@, id), ("result"@, result)];
    let inner = seq![("code"@, Json::Int(code as int)), ("message"@, Json::Text(message))];
    let b = seq![("jsonrpc"@, Json::Text("2.0"@)), ("id"@, id), ("error"@, object(inner))];
    law_object_reads_back(a, 0, "error"@);
    law_object_reads_back(a, 1, "error"@);
    law_object_reads_back(a, 2, "error"@);
    law_object_reads_back(b, 0, "result"@);
    law_object_reads_back(b, 1, "result"@);
    law_object_reads_back(b, 2, "result"@);
    law_object_reads_back(inner, 0, "id"@);
    law_object_reads_back(inner, 1, "id"@);
}

/// A request without an id gets no result.
pub proof fn law_no_id_no_result(
    request: JsonRpcRequest,
    result: Json,
    code: i64,
    message: Seq<char>,
)
    ensures
        request.id is None ==> ok_reply(request, result) is None,
        request.id is Some ==> ok_reply(request, result) == Some(
            Reply::Success { id: json_of(request.id->0), result },
        ),
        request.id is Some ==> err_reply(request, code, message) == (Reply::Failure {
            id: json_of(request.id->0),
            code,
            message,
        }),
{
}

/// What a parameter may be: a text, a truth value or a count of its own kind.
/// A missing one and null are none, and any other kind is refused.
pub proof fn law_parameters(j: Json, key: Seq<char>, s: Seq<char>, b: bool, n: int)
    ensures
        field(j, key) == Some(Json::Text(s)) ==> string_param(j, key) == Ok::<
            Option<Seq<char>>,
            Seq<char>,
        >(Some(s)) && required_string(j, key) == Ok::<Seq<char>, Seq<char>>(s) && bool_param(j, key)
            is Err && count_param(j, key) is Err && paths_param(j, key) is Err,
        field(j, key) == Some(Json::Bool(b)) ==> bool_param(j, key) == Ok::<Option<bool>, Seq<char>>(
            Some(b),
        ) && flag(j, key) == Ok::<bool, Seq<char>>(b) && string_param(j, key) is Err
            && required_string(j, key) is Err && count_param(j, key) is Err,
        field(j, key) == Some(Json::Int(n)) && 0 <= n <= usize::MAX ==> count_param(j, key) == Ok::<
            Option<int>,
            Seq<char>,
        >(Some(n)),
        field(j, key) == Some(Json::Int(n)) && (n < 0 || n > usize::MAX) ==> count_param(j, key) is Err,
        field(j, key) == Some(Json::Int(n)) ==> string_param(j, key) is Err && bool_param(j, key) is Err,
        field(j, key) is None || field(j, key) == Some(Json::Null) ==> string_param(j, key) == Ok::<
            Option<Seq<char>>,
            Seq<char>,
        >(None) && bool_param(j, key) == Ok::<Option<bool>, Seq<char>>(None) && flag(j, key)
            == Ok::<bool, Seq<char>>(false) && count_param(j, key) == Ok::<Option<int>, Seq<char>>(
            None,
        ) && required_string(j, key) is Err,
{
}

/// A list of paths is read whole and in order.
pub proof fn law_path_lists(j: Json, key: Seq<char>, paths: Seq<Seq<char>>)
    requires
        field(j, key) == Some(Json::Arr(Seq::new(paths.len(), |i: int| Json::Text(paths[i])))),
    ensures
        paths_param(j, key) == Ok::<Seq<Seq<char>>, Seq<char>>(paths),
{
    lemma_all_texts(paths);
}

proof fn lemma_all_texts(paths: Seq<Seq<char>>)
    ensures
        all_texts(Seq::new(paths.len(), |i: int| Json::Text(paths[i]))) == Some(paths),
    decreases paths.len(),
{
    let v = Seq::new(paths.len(), |i: int| Json::Text(paths[i]));
    if paths.len() > 0 {
        let init = paths.drop_last();
        lemma_all_texts(init);
        assert(v.drop_last() =~= Seq::new(init.len(), |i: int| Json::Text(init[i])));
        assert(init.push(paths[paths.len() - 1]) =~= paths);
    } else {
        assert(paths =~= Seq::<Seq<char>>::empty());
    }
}

/// Which archive a call means: the one that it names, else that of its service
/// and account, else none. A service without an account, or the other way
/// round, is refused.
pub proof fn law_call_target(memex_dir: Seq<char>, j: Json, a: Seq<char>, s: Seq<char>, c: Seq<char>)
    ensures
        field(j, "archive"@) == Some(Json::Text(a)) ==> target(memex_dir, j) == Ok::<
            Option<Seq<char>>,
            Refusal,
        >(Some(a)),
        field(j, "archive"@) is None && field(j, "service"@) == Some(Json::Text(s)) && field(
            j,
            "account"@,
        ) == Some(Json::Text(c)) && scoped_fault(s, c) is None ==> target(memex_dir, j) == Ok::<
            Option<Seq<char>>,
            Refusal,
        >(Some(scoped_path(memex_dir, s, c))),
        field(j, "archive"@) is None && field(j, "service"@) is None && field(j, "account"@) is None
            ==> target(memex_dir, j) == Ok::<Option<Seq<char>>, Refusal>(None),
        field(j, "archive"@) is None && field(j, "service"@) == Some(Json::Text(s)) && field(
            j,
            "account"@,
        ) is None ==> target(memex_dir, j) == Err::<Option<Seq<char>>, Refusal>(
            Refusal::Unspecified,
        ),
        field(j, "archive"@) is None && field(j, "service"@) is None && field(j, "account"@) == Some(
            Json::Text(c),
        ) ==> target(memex_dir, j) == Err::<Option<Seq<char>>, Refusal>(Refusal::Unspecified),
{
}

/// A search call asks for its pattern, with the flags and the limit that it
/// gives, in the archive that it means. Without a limit that of the settings
/// holds.
pub proof fn law_search_call(
    memex_dir: Seq<char>,
    cap: int,
    fs: Seq<(Seq<char>, Json)>,
    p: Seq<char>,
    n: int,
    b: bool,
)
    requires
        0 <= n <= usize::MAX,
        field(Json::Obj(fs), "pattern"@) == Some(Json::Text(p)),
        field(Json::Obj(fs), "archive"@) is None,
        field(Json::Obj(fs), "service"@) is None,
        field(Json::Obj(fs), "account"@) is None,
        field(Json::Obj(fs), "fixed_strings"@) is None,
        field(Json::Obj(fs), "word_regexp"@) is None,
        field(Json::Obj(fs), "ignore_case"@) == Some(Json::Bool(b)),
    ensures
        field(Json::Obj(fs), "max_count"@) == Some(Json::Int(n)) ==> call_plan(
            memex_dir,
            cap,
            "search"@,
            Json::Obj(fs),
        ) == Ok::<CallView, Refusal>(
            CallView::Search {
                archive: None,
                pattern: p,
                flags: SearchFlags { ignore_case: b, fixed_strings: false, word_regexp: false },
                max_count: n,
            },
        ),
        field(Json::Obj(fs), "max_count"@) is None ==> call_plan(
            memex_dir,
            cap,
            "search"@,
            Json::Obj(fs),
        ) == Ok::<CallView, Refusal>(
            CallView::Search {
                archive: None,
                pattern: p,
                flags: SearchFlags { ignore_case: b, fixed_strings: false, word_regexp: false },
                max_count: cap,
            },
        ),
{
    lemma_method_names();
}

/// Each flag of a search call sets its own option.
pub proof fn law_search_flags(
    memex_dir: Seq<char>,
    cap: int,
    fs: Seq<(Seq<char>, Json)>,
    i: bool,
    f: bool,
    w: bool,
    c: CallView,
)
    requires
        flag(Json::Obj(fs), "ignore_case"@) == Ok::<bool, Seq<char>>(i),
        flag(Json::Obj(fs), "fixed_strings"@) == Ok::<bool, Seq<char>>(f),
        flag(Json::Obj(fs), "word_regexp"@) == Ok::<bool, Seq<char>>(w),
        call_plan(memex_dir, cap, "search"@, Json::Obj(fs)) == Ok::<CallView, Refusal>(c),
    ensures
        c is Search,
        c->flags == (SearchFlags { ignore_case: i, fixed_strings: f, word_regexp: w }),
        field(Json::Obj(fs), "pattern"@) == Some(Json::Text(c->pattern)),
        Ok::<Option<Seq<char>>, Refusal>(c->Search_archive) == target(memex_dir, Json::Obj(fs)),
{
    lemma_method_names();
}

proof fn lemma_method_names()
    ensures
        "search"@ != "list_archives"@,
        "stats"@ != "list_archives"@ && "stats"@ != "search"@,
        "ingest"@ != "list_archives"@ && "ingest"@ != "search"@ && "ingest"@ != "stats"@,
        "scoped_path"@ != "list_archives"@ && "scoped_path"@ != "search"@ && "scoped_path"@
            != "stats"@ && "scoped_path"@ != "ingest"@,
        "infer_grok_export"@ != "list_archives"@ && "infer_grok_export"@ != "search"@
            && "infer_grok_export"@ != "stats"@ && "infer_grok_export"@ != "ingest"@
            && "infer_grok_export"@ != "scoped_path"@,
{
    reveal_strlit("list_archives");
    reveal_strlit("search");
    reveal_strlit("stats");
    reveal_strlit("ingest");
    reveal_strlit("scoped_path");
    reveal_strlit("infer_grok_export");
    assert("list_archives"@.len() == 13 && "search"@.len() == 6 && "stats"@.len() == 5
        && "ingest"@.len() == 6 && "scoped_path"@.len() == 11 && "infer_grok_export"@.len() == 17);
    assert("search"@[0] == 's' && "ingest"@[0] == 'i');
}

/// What the other calls ask for: each method its own call, with its own
/// parameters.
pub proof fn law_other_calls(
    memex_dir: Seq<char>,
    cap: int,
    fs: Seq<(Seq<char>, Json)>,
    a: Seq<char>,
    s: Seq<char>,
    c: Seq<char>,
)
    ensures
        call_plan(memex_dir, cap, "list_archives"@, Json::Obj(fs)) == Ok::<CallView, Refusal>(
            CallView::ListArchives,
        ),
        field(Json::Obj(fs), "archive"@) == Some(Json::Text(a)) ==> call_plan(
            memex_dir,
            cap,
            "stats"@,
            Json::Obj(fs),
        ) == Ok::<CallView, Refusal>(CallView::Stats { archive: a }),
        field(Json::Obj(fs), "archive"@) is None && field(Json::Obj(fs), "service"@) is None
            && field(Json::Obj(fs), "account"@) is None ==> call_plan(
            memex_dir,
            cap,
            "stats"@,
            Json::Obj(fs),
        ) == Err::<CallView, Refusal>(Refusal::Unspecified),
        field(Json::Obj(fs), "service"@) == Some(Json::Text(s)) && field(Json::Obj(fs), "account"@)
            == Some(Json::Text(c)) && scoped_fault(s, c) is None ==> call_plan(
            memex_dir,
            cap,
            "scoped_path"@,
            Json::Obj(fs),
        ) == Ok::<CallView, Refusal>(CallView::ScopedPath { path: scoped_path(memex_dir, s, c) }),
        field(Json::Obj(fs), "input"@) == Some(Json::Text(a)) ==> call_plan(
            memex_dir,
            cap,
            "infer_grok_export"@,
            Json::Obj(fs),
        ) == Ok::<CallView, Refusal>(CallView::InferGrokExport { input: a }),
        field(Json::Obj(fs), "inputs"@) is None && field(Json::Obj(fs), "service"@) == Some(
            Json::Text(s),
        ) && field(Json::Obj(fs), "account"@) == Some(Json::Text(c)) && field(
            Json::Obj(fs),
            "output"@,
        ) == Some(Json::Text(a)) ==> call_plan(memex_dir, cap, "ingest"@, Json::Obj(fs)) == Ok::<
            CallView,
            Refusal,
        >(
            CallView::Ingest {
                inputs: Seq::empty(),
                service: Some(s),
                account: Some(c),
                output: Some(a),
            },
        ),
{
    lemma_method_names();
}

/// The counts of an archive, each under its own name.
pub proof fn law_stats_document(s: ArchiveStats)
    ensures
        field(stats_json(s), "path"@) == Some(Json::Text(s.path@)),
        field(stats_json(s), "version"@) == Some(Json::Int(s.version as int)),
        field(stats_json(s), "exports"@) == Some(Json::Int(s.exports as int)),
        field(stats_json(s), "conversations"@) == Some(Json::Int(s.conversations as int)),
        field(stats_json(s), "media_posts"@) == Some(Json::Int(s.media_posts as int)),
        field(stats_json(s), "projects"@) == Some(Json::Int(s.projects as int)),
        field(stats_json(s), "tasks"@) == Some(Json::Int(s.tasks as int)),
        field(stats_json(s), "auth_files"@) == Some(Json::Int(s.auth_files as int)),
        field(stats_json(s), "billing_files"@) == Some(Json::Int(s.billing_files as int)),
        field(stats_json(s), "assets"@) == Some(Json::Int(s.assets as int)),
        field(stats_json(s), "payload_bytes"@) == Some(Json::Int(s.payload_bytes as int)),
        field(stats_json(s), "text_bytes"@) == Some(Json::Int(s.text_bytes as int)),
        field(stats_json(s), "spans"@) == Some(Json::Int(s.spans as int)),
        field(stats_json(s), "export_labels"@) == Some(texts(views(s.export_labels@))),
{
    reveal_strlit("path");
    reveal_strlit("version");
    reveal_strlit("exports");
    reveal_strlit("conversations");
    reveal_strlit("media_posts");
    reveal_strlit("projects");
    reveal_strlit("tasks");
    reveal_strlit("auth_files");
    reveal_strlit("billing_files");
    reveal_strlit("assets");
    reveal_strlit("payload_bytes");
    reveal_strlit("text_bytes");
    reveal_strlit("spans");
    reveal_strlit("export_labels");
    assert("path"@.len() == 4 && "path"@[0] == 'p');
    assert("version"@.len() == 7 && "version"@[0] == 'v');
    assert("exports"@.len() == 7 && "exports"@[0] == 'e');
    assert("conversations"@.len() == 13 && "conversations"@[0] == 'c');
    assert("media_posts"@.len() == 11 && "media_posts"@[0] == 'm');
    assert("projects"@.len() == 8 && "projects"@[0] == 'p');
    assert("tasks"@.len() == 5 && "tasks"@[0] == 't');
    assert("auth_files"@.len() == 10 && "auth_files"@[0] == 'a');
    assert("billing_files"@.len() == 13 && "billing_files"@[0] == 'b');
    assert("assets"@.len() == 6 && "assets"@[0] == 'a');
    assert("payload_bytes"@.len() == 13 && "payload_bytes"@[0] == 'p');
    assert("text_bytes"@.len() == 10 && "text_bytes"@[0] == 't');
    assert("spans"@.len() == 5 && "spans"@[0] == 's');
    assert("export_labels"@.len() == 13 && "export_labels"@[0] == 'e');
    let fs = stats_fields(s);
    assert(stats_json(s) == object(fs));
    law_object_reads_back(fs, 0, "path"@);
    law_object_reads_back(fs, 1, "path"@);
    law_object_reads_back(fs, 2, "path"@);
    law_object_reads_back(fs, 3, "path"@);
    law_object_reads_back(fs, 4, "path"@);
    law_object_reads_back(fs, 5, "path"@);
    law_object_reads_back(fs, 6, "path"@);
    law_object_reads_back(fs, 7, "path"@);
    law_object_reads_back(fs, 8, "path"@);
    law_object_reads_back(fs, 9, "path"@);
    law_object_reads_back(fs, 10, "path"@);
    law_object_reads_back(fs, 11, "path"@);
    law_object_reads_back(fs, 12, "path"@);
    law_object_reads_back(fs, 13, "path"@);
}

spec fn stats_fields(s: ArchiveStats) -> Seq<(Seq<char>, Json)> {
    seq![
        ("path"@, Json::Text(s.path@)),
        ("version"@, Json::Int(s.version as int)),
        ("exports"@, Json::Int(s.exports as int)),
        ("conversations"@, Json::Int(s.conversations as int)),
        ("media_posts"@, Json::Int(s.media_posts as int)),
        ("projects"@, Json::Int(s.projects as int)),
        ("tasks"@, Json::Int(s.tasks as int)),
        ("auth_files"@, Json::Int(s.auth_files as int)),
        ("billing_files"@, Json::Int(s.billing_files as int)),
        ("assets"@, Json::Int(s.assets as int)),
        ("payload_bytes"@, Json::Int(s.payload_bytes as int)),
        ("text_bytes"@, Json::Int(s.text_bytes as int)),
        ("spans"@, Json::Int(s.spans as int)),
        ("export_labels"@, texts(views(s.export_labels@))),
    ]
}

/// The answer of an ingest: one report as it stands, several in a list with
/// their sums.
pub proof fn law_ingest_document(v: Seq<IngestReport>, x: IngestReport)
    ensures
        field(reports_json(seq![x]), "output"@) == Some(Json::Text(x.output@)),
        field(reports_json(seq![x]), "exports"@) == Some(Json::Int(x.exports as int)),
        field(reports_json(seq![x]), "conversations"@) == Some(Json::Int(x.conversations as int)),
        v.len() != 1 ==> field(reports_json(v), "reports"@) == Some(
            Json::Arr(Seq::new(v.len(), |i: int| report_json(v[i]))),
        ),
        export_sum(v.push(x)) == export_sum(v) + x.exports,
        conversation_sum(v.push(x)) == conversation_sum(v) + x.conversations,
        export_sum(Seq::empty()) == 0 && conversation_sum(Seq::empty()) == 0,
        v.len() != 1 && export_sum(v) <= usize::MAX ==> field(reports_json(v), "exports"@) == Some(
            Json::Int(export_sum(v) as int),
        ),
        v.len() != 1 && conversation_sum(v) <= usize::MAX ==> field(
            reports_json(v),
            "conversations"@,
        ) == Some(Json::Int(conversation_sum(v) as int)),
{
    reveal_strlit("output");
    reveal_strlit("exports");
    reveal_strlit("conversations");
    reveal_strlit("reports");
    assert("output"@[0] == 'o' && "exports"@[0] == 'e' && "conversations"@[0] == 'c'
        && "reports"@[0] == 'r');
    let a = seq![
        ("output"@, Json::Text(x.output@)),
        ("exports"@, Json::Int(x.exports as int)),
        ("conversations"@, Json::Int(x.conversations as int)),
    ];
    let b = seq![
        ("reports"@, Json::Arr(Seq::new(v.len(), |i: int| report_json(v[i])))),
        ("exports"@, Json::Int(crate::merge::capped(export_sum(v)) as int)),
        ("conversations"@, Json::Int(crate::merge::capped(conversation_sum(v)) as int)),
    ];
    assert(v.push(x).drop_last() =~= v);
    law_object_reads_back(a, 0, "reports"@);
    law_object_reads_back(a, 1, "reports"@);
    law_object_reads_back(a, 2, "reports"@);
    law_object_reads_back(b, 0, "output"@);
    law_object_reads_back(b, 1, "output"@);
    law_object_reads_back(b, 2, "output"@);
}

/// A reply ends its line. In TOON, which spans lines, a blank line follows.
pub proof fn law_framing(body: Seq<char>)
    requires
        body.len() > 0,
    ensures
        body.last() != '\n' ==> framed(body, WireFormat::Json) == body.push('\n'),
        body.last() == '\n' ==> framed(body, WireFormat::Json) == body,
        body.last() != '\n' ==> framed(body, WireFormat::Toon) == body.push('\n').push('\n'),
        body.last() == '\n' ==> framed(body, WireFormat::Toon) == body.push('\n'),
{
    reveal_strlit("\n");
    assert("\n"@ =~= seq!['\n']);
    assert(body + "\n"@ =~= body.push('\n'));
    assert(body + "\n"@ + "\n"@ =~= body.push('\n').push('\n'));
}

} // verus!
