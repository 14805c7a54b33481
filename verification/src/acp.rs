//! The ACP surface: the local functions as JSON-RPC methods.
use vstd::prelude::*;

use crate::json::{
    field, json_of, law_object_reads_back, named_fields, no_fields, object, object_of, str_views,
    strs_value, text_value, texts, with_field, Json,
};
use crate::mcp::server_info;
use crate::paths::{lemma_split_around, lemma_split_before};
use crate::rpc::{
    answers, call_local, call_plan, err_reply, error_code, id_json, is_opt_reply, is_plan,
    is_refusal, local_function_methods, method_names, ok_reply, product_rpc_error, respond_ok,
    unread, JsonRpcRequest, JsonRpcResponse, LocalCall, Reply, RpcContext,
};
use crate::text::{
    chars_of, is_white, law_trim, same_str, split_at_char, split_char, starts, starts_with, trim,
    trimmed, views,
};
use crate::wire::{document, json_parsed, parse_rpc_value, toon_parsed};
use crate::{error_text, Error};

verus! {

/// The answer to `initialize`.
pub open spec fn initialized(version: Seq<char>) -> Json {
    object(
        seq![
            ("protocolVersion"@, Json::Text("acp-local/1"@)),
            (
                "serverInfo"@,
                object(seq![("name"@, Json::Text("memex"@)), ("version"@, Json::Text(version))]),
            ),
            ("methods"@, texts(method_names())),
        ],
    )
}

/// The answer to `initialize`. `version` is that of the program.
pub fn initialize_result(version: &str) -> (r: serde_json::Value)
    ensures
        json_of(r) == initialized(version@),
{
    let methods = local_function_methods();
    let v = with_field(no_fields(), "protocolVersion", text_value("acp-local/1"));
    let v = with_field(v, "serverInfo", server_info(version));
    let v = with_field(v, "methods", strs_value(&methods));
    proof {
        assert(named_fields(v@) =~= seq![
            ("protocolVersion"@, Json::Text("acp-local/1"@)),
            (
                "serverInfo"@,
                object(seq![("name"@, Json::Text("memex"@)), ("version"@, Json::Text(version@))]),
            ),
            ("methods"@, texts(method_names())),
        ]);
    }
    object_of(v)
}

/// The methods, besides `initialize`.
pub fn dispatched_methods() -> (r: Vec<&'static str>)
    ensures
        str_views(r@) == method_names(),
{
    local_function_methods()
}

/// The call that a method and its parameters ask for.
pub fn call(ctx: &RpcContext, method: &str, params: &serde_json::Value) -> (r: Result<
    LocalCall,
    Error,
>)
    ensures
        is_plan(
            r,
            call_plan(
                ctx.memex_dir@,
                ctx.config.search.max_count as int,
                method@,
                json_of(*params),
            ),
        ),
{
    call_local(ctx, method, params)
}

/// What to do for a request.
pub enum AcpStep {
    /// Send this, or nothing.
    Respond(Option<JsonRpcResponse>),
    /// Make this call and send what [`call_response`] gives.
    Call(LocalCall),
}

/// The response to a request that failed. A notification has none.
pub open spec fn failed(request: JsonRpcRequest, e: Error) -> Option<Reply> {
    match id_json(request) {
        Some(_) => Some(err_reply(request, error_code(e), error_text(e))),
        None => None,
    }
}

/// `s` is what to do for a request.
pub open spec fn is_step(
    memex_dir: Seq<char>,
    cap: int,
    version: Seq<char>,
    request: JsonRpcRequest,
    s: AcpStep,
) -> bool {
    if request.method@ == "initialize"@ {
        match s {
            AcpStep::Respond(r) => is_opt_reply(r, ok_reply(request, initialized(version))),
            AcpStep::Call(_) => false,
        }
    } else {
        match call_plan(memex_dir, cap, request.method@, json_of(request.params)) {
            Ok(c) => match s {
                AcpStep::Call(x) => x@ == c,
                AcpStep::Respond(_) => false,
            },
            Err(refusal) => match s {
                AcpStep::Respond(r) => exists|e: Error| #[trigger]
                    is_refusal(e, refusal) && is_opt_reply(r, failed(request, e)),
                AcpStep::Call(_) => false,
            },
        }
    }
}

fn failure(request: &JsonRpcRequest, e: &Error) -> (r: Option<JsonRpcResponse>)
    ensures
        is_opt_reply(r, failed(*request, *e)),
{
    match &request.id {
        Some(_) => product_rpc_error(request, e),
        None => None,
    }
}

/// What to do for a request: `initialize`, or the name of a local function.
/// `version` is that of the program.
pub fn handle_request(ctx: &RpcContext, request: &JsonRpcRequest, version: &str) -> (r: AcpStep)
    ensures
        is_step(
            ctx.memex_dir@,
            ctx.config.search.max_count as int,
            version@,
            *request,
            r,
        ),
{
    if same_str(&request.method, "initialize") {
        return AcpStep::Respond(respond_ok(request, initialize_result(version)));
    }
    match call(ctx, &request.method, &request.params) {
        Ok(c) => AcpStep::Call(c),
        Err(e) => AcpStep::Respond(failure(request, &e)),
    }
}

/// The response to a call that was made.
pub fn call_response(request: &JsonRpcRequest, outcome: Result<serde_json::Value, Error>) -> (r:
    Option<JsonRpcResponse>)
    ensures
        is_opt_reply(r, answered(*request, outcome)),
{
    match outcome {
        Ok(v) => respond_ok(request, v),
        Err(e) => failure(request, &e),
    }
}

/// `r` answers a request: at once, or with the outcome of the call that the
/// request asks for.
pub open spec fn is_answer<P: Fn(LocalCall) -> Result<serde_json::Value, Error>>(
    ctx: RpcContext,
    version: Seq<char>,
    perform: P,
    request: JsonRpcRequest,
    r: Option<JsonRpcResponse>,
) -> bool {
    exists|s: AcpStep| #[trigger]
        is_step(
            ctx.memex_dir@,
            ctx.config.search.max_count as int,
            version,
            request,
            s,
        ) && (match s {
            AcpStep::Respond(x) => r == x,
            AcpStep::Call(c) => exists|outcome: Result<serde_json::Value, Error>| #[trigger]
                call_ensures(perform, (c,), outcome) && is_opt_reply(
                    r,
                    answered(request, outcome),
                ),
        })
}

/// The answer to a request whose call has this outcome.
pub open spec fn answered(
    request: JsonRpcRequest,
    outcome: Result<serde_json::Value, Error>,
) -> Option<Reply> {
    match outcome {
        Ok(v) => ok_reply(request, json_of(v)),
        Err(e) => failed(request, e),
    }
}

/// `r` answers a document. One that is no request is a parse error.
pub open spec fn is_value_answer<
    D: Fn(serde_json::Value) -> Result<JsonRpcRequest, String>,
    P: Fn(LocalCall) -> Result<serde_json::Value, Error>,
>(
    ctx: RpcContext,
    version: Seq<char>,
    decode: D,
    perform: P,
    value: serde_json::Value,
    r: Option<JsonRpcResponse>,
) -> bool {
    exists|q: Result<JsonRpcRequest, String>| #[trigger]
        call_ensures(decode, (value,), q) && (match q {
            Ok(request) => is_answer(ctx, version, perform, request, r),
            Err(e) => is_opt_reply(r, Some(unread(e@))),
        })
}

/// Handles one document. `decode` reads it as a request and `perform` makes
/// the call that a request asks for.
pub fn handle_value<
    D: Fn(serde_json::Value) -> Result<JsonRpcRequest, String>,
    P: Fn(LocalCall) -> Result<serde_json::Value, Error>,
>(ctx: &RpcContext, value: serde_json::Value, version: &str, decode: D, perform: P) -> (r: Option<
    JsonRpcResponse,
>)
    requires
        forall|v: serde_json::Value| call_requires(decode, (v,)),
        forall|c: LocalCall| call_requires(perform, (c,)),
    ensures
        is_value_answer(*ctx, version@, decode, perform, value, r),
{
    let request = match decode(value) {
        Ok(request) => request,
        Err(e) => {
            return Some(JsonRpcResponse::parse_error(&e));
        },
    };
    match handle_request(ctx, &request, version) {
        AcpStep::Respond(r) => r,
        AcpStep::Call(c) => call_response(&request, perform(c)),
    }
}

/// Handles one line, which holds a document in JSON or TOON. One that
/// neither parser reads is a parse error.
pub fn handle_line<
    D: Fn(serde_json::Value) -> Result<JsonRpcRequest, String>,
    P: Fn(LocalCall) -> Result<serde_json::Value, Error>,
>(ctx: &RpcContext, line: &str, version: &str, decode: D, perform: P) -> (r: Option<
    JsonRpcResponse,
>)
    requires
        forall|v: serde_json::Value| call_requires(decode, (v,)),
        forall|c: LocalCall| call_requires(perform, (c,)),
    ensures
        match document(line@, json_parsed(trim(line@)), toon_parsed(trim(line@))) {
            Ok((j, _)) => exists|value: serde_json::Value|
                json_of(value) == j && #[trigger] is_value_answer(
                    *ctx,
                    version@,
                    decode,
                    perform,
                    value,
                    r,
                ),
            Err(e) => is_opt_reply(r, Some(unread(e))),
        },
{
    match parse_rpc_value(line) {
        Ok((value, _)) => handle_value(ctx, value, version, decode, perform),
        Err(e) => Some(JsonRpcResponse::parse_error(&e)),
    }
}

/// Every request is answered with its id, and no notification is answered,
/// whether the answer is given at once or after a call.
pub proof fn law_requests_are_answered<P: Fn(LocalCall) -> Result<serde_json::Value, Error>>(
    ctx: RpcContext,
    version: Seq<char>,
    perform: P,
    request: JsonRpcRequest,
    r: Option<JsonRpcResponse>,
)
    requires
        is_answer(ctx, version, perform, request, r),
    ensures
        answers(request, r),
{
}

/// A letter, a digit or an underscore.
pub open spec fn ident_char(c: char) -> bool {
    'a' <= c <= 'z' || 'A' <= c <= 'Z' || '0' <= c <= '9' || c == '_'
}

/// An identifier.
pub open spec fn is_ident(s: Seq<char>) -> bool {
    s.len() > 0 && forall|i: int| 0 <= i < s.len() ==> ident_char(#[trigger] s[i])
}

/// The identifiers among the first `n` of the parts between backticks. What
/// stands in backticks is every second part that a backtick closes.
pub open spec fn quoted(parts: Seq<Seq<char>>, n: nat) -> Seq<Seq<char>>
    decreases n,
{
    if n == 0 {
        Seq::empty()
    } else {
        let i = n - 1;
        let head = quoted(parts, i as nat);
        if i % 2 == 1 && i + 1 < parts.len() && is_ident(parts[i]) {
            head.push(parts[i])
        } else {
            head
        }
    }
}

/// The identifiers in backticks.
pub open spec fn idents(s: Seq<char>) -> Seq<Seq<char>> {
    let parts = split_char(s, '`');
    quoted(parts, parts.len())
}

fn ident(s: &str) -> (r: bool)
    ensures
        r == is_ident(s@),
{
    let v = chars_of(s);
    let mut i: usize = 0;
    while i < v.len()
        invariant
            i <= v@.len(),
            v@ == s@,
            forall|k: int| 0 <= k < i ==> ident_char(#[trigger] v@[k]),
        decreases v.len() - i,
    {
        let c = v[i];
        let good = ('a' <= c && c <= 'z') || ('A' <= c && c <= 'Z') || ('0' <= c && c <= '9')
            || c == '_';
        if !good {
            proof {
                assert(!ident_char(v@[i as int]));
            }
            return false;
        }
        i = i + 1;
    }
    v.len() > 0
}

/// The identifiers in backticks.
pub fn backtick_idents(s: &str) -> (r: Vec<String>)
    ensures
        views(r@) == idents(s@),
{
    let parts = split_at_char(s, '`');
    let ghost all = views(parts@);
    let mut out: Vec<String> = Vec::new();
    let mut i: usize = 0;
    proof {
        assert(views(out@) =~= quoted(all, 0));
    }
    while i < parts.len()
        invariant
            i <= parts@.len(),
            all == views(parts@),
            views(out@) == quoted(all, i as nat),
        decreases parts.len() - i,
    {
        proof {
            assert(all[i as int] == parts@[i as int]@);
            assert(all.len() == parts@.len());
        }
        if i % 2 == 1 && i < parts.len() - 1 && ident(&parts[i]) {
            let ghost held = views(out@);
            out.push(parts[i].clone());
            proof {
                assert(views(out@) =~= held.push(all[i as int]));
            }
        }
        i = i + 1;
    }
    out
}

/// The parts that are not empty.
pub open spec fn filled(parts: Seq<Seq<char>>) -> Seq<Seq<char>>
    decreases parts.len(),
{
    if parts.len() == 0 {
        Seq::empty()
    } else {
        let head = filled(parts.drop_last());
        let last = trim(parts.last());
        if last.len() == 0 {
            head
        } else {
            head.push(last)
        }
    }
}

/// The columns of a table row. Empty ones do not count.
pub open spec fn columns(row: Seq<char>) -> Seq<Seq<char>> {
    filled(split_char(row, '|'))
}

fn columns_of(row: &str) -> (r: Vec<String>)
    ensures
        views(r@) == columns(row@),
{
    let parts = split_at_char(row, '|');
    let ghost all = views(parts@);
    let mut out: Vec<String> = Vec::new();
    let mut i: usize = 0;
    proof {
        assert(all.take(0) =~= Seq::<Seq<char>>::empty());
        assert(views(out@) =~= filled(all.take(0)));
    }
    while i < parts.len()
        invariant
            i <= parts@.len(),
            all == views(parts@),
            views(out@) == filled(all.take(i as int)),
        decreases parts.len() - i,
    {
        proof {
            assert(all.take(i + 1).drop_last() =~= all.take(i as int));
            assert(all.take(i + 1).last() == parts@[i as int]@);
        }
        let part = trimmed(&parts[i]);
        if !part.is_empty() {
            let ghost held = views(out@);
            let ghost shown = part@;
            out.push(part);
            proof {
                assert(views(out@) =~= held.push(shown));
            }
        }
        i = i + 1;
    }
    proof {
        assert(all.take(all.len() as int) =~= all);
    }
    out
}

/// A row with three dashes in a line.
pub open spec fn ruled(row: Seq<char>) -> bool {
    exists|i: int|
        0 <= i && i + 2 < row.len() && #[trigger] row[i] == '-' && row[i + 1] == '-' && row[i + 2]
            == '-'
}

fn is_ruled(row: &str) -> (r: bool)
    ensures
        r == ruled(row@),
{
    let v = chars_of(row);
    if v.len() < 3 {
        return false;
    }
    let mut i: usize = 0;
    while i < v.len() - 2
        invariant
            i <= v@.len() - 2,
            v@ == row@,
            v@.len() >= 3,
            forall|k: int|
                0 <= k < i ==> !(#[trigger] v@[k] == '-' && v@[k + 1] == '-' && v@[k + 2] == '-'),
        decreases v.len() - i,
    {
        if v[i] == '-' && v[i + 1] == '-' && v[i + 2] == '-' {
            return true;
        }
        i = i + 1;
    }
    false
}

/// Where a reader of the method table stands.
pub struct TableView {
    /// The column with the methods, once its header row is read.
    pub column: Option<nat>,
    /// The table is read to its end.
    pub closed: bool,
    pub methods: Seq<Seq<char>>,
}

/// The methods with those of `more` that are new.
pub open spec fn with_new(methods: Seq<Seq<char>>, more: Seq<Seq<char>>) -> Seq<Seq<char>>
    decreases more.len(),
{
    if more.len() == 0 {
        methods
    } else {
        let head = with_new(methods, more.drop_last());
        if head.contains(more.last()) {
            head
        } else {
            head.push(more.last())
        }
    }
}

/// The first column with this title.
pub open spec fn titled(cols: Seq<Seq<char>>, title: Seq<char>) -> Option<nat>
    decreases cols.len(),
{
    if cols.len() == 0 {
        None
    } else {
        match titled(cols.drop_last(), title) {
            Some(i) => Some(i),
            None => if cols.last() == title {
                Some((cols.len() - 1) as nat)
            } else {
                None
            },
        }
    }
}

/// The reader after one more line.
pub open spec fn after_line(t: TableView, line: Seq<char>) -> TableView {
    let row = trim(line);
    let cols = columns(row);
    if t.closed {
        t
    } else if !starts(row, "|"@) {
        TableView { closed: t.column is Some, ..t }
    } else {
        match t.column {
            None => TableView { column: titled(cols, "ACP method"@), ..t },
            Some(c) => if !ruled(row) && c < cols.len() && cols[c as int] != "n/a"@ {
                TableView { methods: with_new(t.methods, idents(cols[c as int])), ..t }
            } else {
                t
            },
        }
    }
}

/// The reader after some lines.
pub open spec fn after_lines(lines: Seq<Seq<char>>) -> TableView
    decreases lines.len(),
{
    if lines.len() == 0 {
        TableView { column: None, closed: false, methods: Seq::empty() }
    } else {
        after_line(after_lines(lines.drop_last()), lines.last())
    }
}

/// The methods in the column `ACP method` of the first table that has one.
pub open spec fn listed(doc: Seq<char>) -> Seq<Seq<char>> {
    after_lines(split_char(doc, '\n')).methods
}

fn titled_column(cols: &Vec<String>, title: &str) -> (r: Option<usize>)
    ensures
        match r {
            Some(i) => titled(views(cols@), title@) == Some(i as nat),
            None => titled(views(cols@), title@) is None,
        },
{
    let ghost all = views(cols@);
    let mut found: Option<usize> = None;
    let mut i: usize = 0;
    proof {
        assert(all.take(0) =~= Seq::<Seq<char>>::empty());
    }
    while i < cols.len()
        invariant
            i <= cols@.len(),
            all == views(cols@),
            match found {
                Some(k) => titled(all.take(i as int), title@) == Some(k as nat),
                None => titled(all.take(i as int), title@) is None,
            },
        decreases cols.len() - i,
    {
        proof {
            assert(all.take(i + 1).drop_last() =~= all.take(i as int));
            assert(all.take(i + 1).last() == cols@[i as int]@);
        }
        if found.is_none() && same_str(&cols[i], title) {
            found = Some(i);
        }
        i = i + 1;
    }
    proof {
        assert(all.take(all.len() as int) =~= all);
    }
    found
}

fn has_text(v: &Vec<String>, s: &str) -> (r: bool)
    ensures
        r == views(v@).contains(s@),
{
    let ghost all = views(v@);
    let mut i: usize = 0;
    while i < v.len()
        invariant
            i <= v@.len(),
            all == views(v@),
            forall|k: int| 0 <= k < i ==> #[trigger] all[k] != s@,
        decreases v.len() - i,
    {
        proof {
            assert(all[i as int] == v@[i as int]@);
        }
        if same_str(&v[i], s) {
            return true;
        }
        i = i + 1;
    }
    false
}

fn add_new(methods: Vec<String>, more: &Vec<String>) -> (r: Vec<String>)
    ensures
        views(r@) == with_new(views(methods@), views(more@)),
{
    let ghost given = views(methods@);
    let ghost all = views(more@);
    let mut out = methods;
    let mut i: usize = 0;
    proof {
        assert(all.take(0) =~= Seq::<Seq<char>>::empty());
    }
    while i < more.len()
        invariant
            i <= more@.len(),
            all == views(more@),
            views(out@) == with_new(given, all.take(i as int)),
        decreases more.len() - i,
    {
        proof {
            assert(all.take(i + 1).drop_last() =~= all.take(i as int));
            assert(all.take(i + 1).last() == more@[i as int]@);
        }
        if !has_text(&out, &more[i]) {
            let ghost held = views(out@);
            out.push(more[i].clone());
            proof {
                assert(views(out@) =~= held.push(all[i as int]));
            }
        }
        i = i + 1;
    }
    proof {
        assert(all.take(all.len() as int) =~= all);
    }
    out
}

/// The methods in the column `ACP method` of a method table in markdown, in
/// order, each once.
pub fn methods_listed_in_doc(doc: &str) -> (r: Vec<String>)
    ensures
        views(r@) == listed(doc@),
{
    let lines = split_at_char(doc, '\n');
    let ghost all = views(lines@);
    let mut methods: Vec<String> = Vec::new();
    let mut column: Option<usize> = None;
    let mut closed = false;
    let mut i: usize = 0;
    proof {
        assert(all.take(0) =~= Seq::<Seq<char>>::empty());
        assert(views(methods@) =~= Seq::<Seq<char>>::empty());
    }
    while i < lines.len()
        invariant
            i <= lines@.len(),
            all == views(lines@),
            after_lines(all.take(i as int)) == (TableView {
                column: match column {
                    Some(c) => Some(c as nat),
                    None => None,
                },
                closed,
                methods: views(methods@),
            }),
        decreases lines.len() - i,
    {
        proof {
            assert(all.take(i + 1).drop_last() =~= all.take(i as int));
            assert(all.take(i + 1).last() == lines@[i as int]@);
        }
        let row = trimmed(&lines[i]);
        if closed {
        } else if !starts_with(&row, "|") {
            closed = column.is_some();
        } else {
            let cols = columns_of(&row);
            match column {
                None => {
                    column = titled_column(&cols, "ACP method");
                },
                Some(c) => {
                    proof {
                        assert(views(cols@).len() == cols@.len());
                        assert(c < cols@.len() ==> views(cols@)[c as int] == cols@[c as int]@);
                    }
                    if !is_ruled(&row) && c < cols.len() && !same_str(&cols[c], "n/a") {
                        let found = backtick_idents(&cols[c]);
                        methods = add_new(methods, &found);
                    }
                },
            }
        }
        i = i + 1;
    }
    proof {
        assert(all.take(all.len() as int) =~= all);
    }
    methods
}

proof fn lemma_with_new_once(methods: Seq<Seq<char>>, more: Seq<Seq<char>>)
    requires
        methods.no_duplicates(),
    ensures
        with_new(methods, more).no_duplicates(),
    decreases more.len(),
{
    if more.len() > 0 {
        lemma_with_new_once(methods, more.drop_last());
        let head = with_new(methods, more.drop_last());
        if !head.contains(more.last()) {
            assert forall|i: int, j: int|
                0 <= i < head.len() + 1 && 0 <= j < head.len() + 1 && i != j implies head.push(
                more.last(),
            )[i] != head.push(more.last())[j] by {
                if i == head.len() {
                    assert(head.contains(head[j]));
                } else if j == head.len() {
                    assert(head.contains(head[i]));
                }
            }
        }
    }
}

proof fn lemma_listed_once(lines: Seq<Seq<char>>)
    ensures
        after_lines(lines).methods.no_duplicates(),
    decreases lines.len(),
{
    if lines.len() > 0 {
        lemma_listed_once(lines.drop_last());
        let t = after_lines(lines.drop_last());
        let cols = columns(trim(lines.last()));
        if t.column is Some && (t.column->0) < cols.len() {
            lemma_with_new_once(t.methods, idents(cols[t.column->0 as int]));
        }
    }
}

/// A method table lists each method once, however often it names it.
pub proof fn law_methods_are_listed_once(doc: Seq<char>)
    ensures
        listed(doc).no_duplicates(),
{
    lemma_listed_once(split_char(doc, '\n'));
}

/// An initialized server names its protocol, itself and every method.
pub proof fn law_initialize(version: Seq<char>)
    ensures
        field(initialized(version), "protocolVersion"@) == Some(Json::Text("acp-local/1"@)),
        field(initialized(version), "methods"@) == Some(texts(method_names())),
        field(initialized(version), "serverInfo"@) is Some,
        field(field(initialized(version), "serverInfo"@)->0, "name"@) == Some(Json::Text("memex"@)),
        field(field(initialized(version), "serverInfo"@)->0, "version"@) == Some(
            Json::Text(version),
        ),
{
    reveal_strlit("protocolVersion");
    reveal_strlit("serverInfo");
    reveal_strlit("methods");
    reveal_strlit("name");
    reveal_strlit("version");
    assert("protocolVersion"@[0] == 'p' && "serverInfo"@[0] == 's' && "methods"@[0] == 'm'
        && "name"@[0] == 'n' && "version"@[0] == 'v');
    let info = seq![("name"@, Json::Text("memex"@)), ("version"@, Json::Text(version))];
    let all = seq![
        ("protocolVersion"@, Json::Text("acp-local/1"@)),
        ("serverInfo"@, object(info)),
        ("methods"@, texts(method_names())),
    ];
    law_object_reads_back(all, 0, "x"@);
    law_object_reads_back(all, 1, "x"@);
    law_object_reads_back(all, 2, "x"@);
    law_object_reads_back(info, 0, "x"@);
    law_object_reads_back(info, 1, "x"@);
}

/// A name between backticks is read from a text, and only where it is made of
/// letters, digits and underscores.
pub proof fn law_backtick_names(pre: Seq<char>, name: Seq<char>, post: Seq<char>)
    requires
        !pre.contains('`') && !name.contains('`') && !post.contains('`'),
    ensures
        name.len() > 0 && (forall|i: int|
            0 <= i < name.len() ==> 'a' <= (#[trigger] name[i]) <= 'z' || 'A' <= name[i] <= 'Z'
                || '0' <= name[i] <= '9' || name[i] == '_') ==> idents(
            pre + seq!['`'] + name + seq!['`'] + post,
        ) == seq![name],
        name.len() == 0 || (exists|i: int|
            0 <= i < name.len() && !('a' <= (#[trigger] name[i]) <= 'z' || 'A' <= name[i] <= 'Z'
                || '0' <= name[i] <= '9' || name[i] == '_')) ==> idents(
            pre + seq!['`'] + name + seq!['`'] + post,
        ).len() == 0,
        idents(pre).len() == 0,
{
    let none = Seq::<char>::empty();
    let s = pre + seq!['`'] + name + seq!['`'] + post;
    let a = pre + seq!['`'] + name;
    lemma_split_around(a, '`', post);
    lemma_split_around(pre, '`', name);
    lemma_split_before(none, '`', pre);
    lemma_split_before(none, '`', name);
    lemma_split_before(none, '`', post);
    assert(none + pre =~= pre && none + name =~= name && none + post =~= post);
    assert(split_char(none, '`') =~= seq![none]);
    assert(split_char(pre, '`') =~= seq![pre]);
    assert(split_char(name, '`') =~= seq![name]);
    assert(split_char(post, '`') =~= seq![post]);
    let parts = split_char(s, '`');
    assert(parts =~= seq![pre, name, post]);
    reveal_with_fuel(quoted, 4);
    if is_ident(name) {
        assert(quoted(parts, 3) =~= seq![name]);
    } else {
        assert(quoted(parts, 3) =~= Seq::<Seq<char>>::empty());
    }
}

/// The columns of a table row are what stands between its bars, without the
/// white space around it.
pub proof fn law_table_columns(a: Seq<char>, b: Seq<char>)
    requires
        a.len() > 0 && !is_white(a[0]) && !is_white(a[a.len() - 1]) && !a.contains('|'),
        b.len() > 0 && !is_white(b[0]) && !is_white(b[b.len() - 1]) && !b.contains('|'),
    ensures
        columns(seq!['|', ' '] + a + seq![' ', '|', ' '] + b + seq![' ', '|']) == seq![a, b],
{
    let none = Seq::<char>::empty();
    let gap = seq![' '];
    let (x, y) = (gap + a + gap, gap + b + gap);
    let row = seq!['|', ' '] + a + seq![' ', '|', ' '] + b + seq![' ', '|'];
    assert(row =~= none + seq!['|'] + x + seq!['|'] + y + seq!['|'] + none);
    lemma_split_around(none + seq!['|'] + x + seq!['|'] + y, '|', none);
    lemma_split_around(none + seq!['|'] + x, '|', y);
    lemma_split_around(none, '|', x);
    lemma_no_bar_between(a);
    lemma_no_bar_between(b);
    lemma_split_before(none, '|', x);
    lemma_split_before(none, '|', y);
    assert(none + x =~= x && none + y =~= y);
    assert(split_char(none, '|') =~= seq![none]);
    assert(split_char(x, '|') =~= seq![x]);
    assert(split_char(y, '|') =~= seq![y]);
    let parts = split_char(row, '|');
    assert(parts =~= seq![none, x, y, none]);
    law_trim(gap, a, gap);
    law_trim(gap, b, gap);
    law_trim(none, none, none);
    assert(none + none + none =~= none);
    let p3 = parts.drop_last();
    let p2 = p3.drop_last();
    let p1 = p2.drop_last();
    assert(p3 =~= seq![none, x, y] && p2 =~= seq![none, x] && p1 =~= seq![none]);
    assert(p1.drop_last() =~= Seq::<Seq<char>>::empty());
    assert(filled(p1.drop_last()) =~= Seq::<Seq<char>>::empty());
    assert(filled(p1) =~= Seq::<Seq<char>>::empty());
    assert(filled(p2) =~= seq![a]);
    assert(filled(p3) =~= seq![a, b]);
    assert(filled(parts) =~= seq![a, b]);
}

proof fn lemma_no_bar_between(a: Seq<char>)
    requires
        !a.contains('|'),
    ensures
        !(seq![' '] + a + seq![' ']).contains('|'),
{
    let x = seq![' '] + a + seq![' '];
    if x.contains('|') {
        let i = choose|i: int| 0 <= i < x.len() && x[i] == '|';
        if 0 < i <= a.len() {
            assert(a.contains(a[i - 1]));
        }
    }
}

/// How a document lists its methods: the first table row names the columns,
/// each later row gives the names in the column of methods, and the first line
/// behind the table ends it.
pub proof fn law_method_table(t: TableView, line: Seq<char>, c: nat)
    ensures
        t.closed ==> after_line(t, line) == t,
        !t.closed && trim(line).len() > 0 && trim(line)[0] != '|' && t.column is Some ==> after_line(
            t,
            line,
        ).closed,
        !t.closed && trim(line).len() > 0 && trim(line)[0] == '|' && t.column == Some(c) && c
            < columns(trim(line)).len() && columns(trim(line))[c as int] != "n/a"@ && !ruled(
            trim(line),
        ) ==> (forall|k: int|
            0 <= k < idents(columns(trim(line))[c as int]).len() ==> after_line(
                t,
                line,
            ).methods.contains(#[trigger] idents(columns(trim(line))[c as int])[k])),
        !t.closed && trim(line).len() > 0 && trim(line)[0] == '|' && ruled(trim(line)) && t.column
            is Some ==> after_line(t, line) == t,
{
    reveal_strlit("|");
    let row = trim(line);
    if row.len() > 0 {
        assert(starts(row, "|"@) <==> row[0] == '|') by {
            assert("|"@ =~= seq!['|']);
            assert(row.take(1)[0] == row[0]);
            if row[0] == '|' {
                assert(row.take(1) =~= "|"@);
            }
        }
    }
    if t.column == Some(c) && c < columns(row).len() {
        lemma_with_new(t.methods, idents(columns(row)[c as int]));
    }
}

proof fn lemma_with_new(methods: Seq<Seq<char>>, more: Seq<Seq<char>>)
    ensures
        forall|k: int|
            0 <= k < more.len() ==> with_new(methods, more).contains(#[trigger] more[k]),
    decreases more.len(),
{
    if more.len() > 0 {
        let init = more.drop_last();
        let head = with_new(methods, init);
        let all = with_new(methods, more);
        lemma_with_new(methods, init);
        assert forall|k: int| 0 <= k < more.len() implies all.contains(#[trigger] more[k]) by {
            if k < init.len() {
                assert(head.contains(init[k]));
                let j = choose|j: int| 0 <= j < head.len() && head[j] == init[k];
                assert(all[j] == more[k]);
            } else if !head.contains(more.last()) {
                assert(all[head.len() as int] == more[k]);
            }
        }
    }
}

} // verus!
