//! The MCP surface over HTTP: formats and bodies of `POST /mcp`.
use vstd::prelude::*;

use crate::json::Json;
use crate::paths::opt_str;
use crate::rpc::{reply_json, response_json, JsonRpcResponse, Reply, PARSE_ERROR};
use crate::wire::{encode_rpc, encoded, json_written, media_format, response_format, WireFormat};

verus! {

/// Listen address when none is set: IPv4 loopback, no authentication.
pub const DEFAULT_BIND: &'static str = "127.0.0.1:8741";

/// The format of a request: what its `Content-Type` says, else what was
/// parsed, else JSON.
pub open spec fn sent_format(content_type: Option<Seq<char>>, parsed: Option<WireFormat>) -> WireFormat {
    let header = match content_type {
        Some(t) => media_format(t),
        None => None,
    };
    match header {
        Some(f) => f,
        None => match parsed {
            Some(f) => f,
            None => WireFormat::Json,
        },
    }
}

/// The format of a request.
pub fn request_format(content_type: Option<&str>, parsed: Option<WireFormat>) -> (r: WireFormat)
    ensures
        r == sent_format(opt_str(content_type), parsed),
{
    let header = match content_type {
        Some(t) => WireFormat::from_media_type(t),
        None => None,
    };
    match header {
        Some(f) => f,
        None => match parsed {
            Some(f) => f,
            None => WireFormat::Json,
        },
    }
}

/// The format of the answer to a request: the preference for TOON, then the
/// query, then `Accept`, then the format of the request.
pub fn answer_format(
    prefer_toon: bool,
    query: Option<&str>,
    accept: Option<&str>,
    content_type: Option<&str>,
    parsed: Option<WireFormat>,
) -> (r: WireFormat)
    ensures
        r == response_format(
            prefer_toon,
            opt_str(query),
            opt_str(accept),
            sent_format(opt_str(content_type), parsed),
        ),
{
    WireFormat::response(prefer_toon, query, accept, request_format(content_type, parsed))
}

/// The body of an answer, with its media type.
pub struct HttpBody {
    pub content_type: &'static str,
    pub body: String,
}

/// The media type and the body of a response. One that cannot be encoded is
/// answered with a parse error in JSON.
pub open spec fn http_body(response: Json, format: WireFormat) -> (Seq<char>, Seq<char>) {
    match encoded(response, format) {
        Ok(body) => (
            match format {
                WireFormat::Json => "application/json"@,
                WireFormat::Toon => "text/toon; charset=utf-8"@,
            },
            body,
        ),
        Err(message) => (
            "application/json"@,
            json_written(
                reply_json(Reply::Failure { id: Json::Null, code: PARSE_ERROR, message }),
            ),
        ),
    }
}

/// The body of a response.
pub fn rpc_body(resp: &JsonRpcResponse, format: WireFormat) -> (r: HttpBody)
    ensures
        (r.content_type@, r.body@) == http_body(response_json(*resp), format),
{
    match encode_rpc(&resp.to_value(), format) {
        Ok(body) => HttpBody { content_type: format.content_type(), body },
        Err(e) => {
            let fault = JsonRpcResponse::parse_error(&e);
            proof {
                crate::rpc::law_response_holds_one(
                    fault,
                    Reply::Failure { id: Json::Null, code: PARSE_ERROR, message: e@ },
                );
            }
            let body = match encode_rpc(&fault.to_value(), WireFormat::Json) {
                Ok(body) => body,
                Err(body) => body,
            };
            HttpBody { content_type: WireFormat::Json.content_type(), body }
        },
    }
}

/// The format of a request is that of its content type, where it is known,
/// else the one that it was read in, else JSON.
pub proof fn law_request_format(t: Seq<char>, f: WireFormat)
    ensures
        media_format(t) is Some ==> sent_format(Some(t), Some(f)) == media_format(t)->0,
        media_format(t) is None ==> sent_format(Some(t), Some(f)) == f,
        sent_format(None, Some(f)) == f,
        sent_format(None, None) == WireFormat::Json,
{
}

/// A body is sent in its format, under the type of that format. What cannot be
/// written is answered in JSON.
pub proof fn law_http_body(j: Json, body: Seq<char>, format: WireFormat)
    ensures
        encoded(j, WireFormat::Json) == Ok::<Seq<char>, Seq<char>>(body) ==> http_body(
            j,
            WireFormat::Json,
        ) == ("application/json"@, body),
        encoded(j, WireFormat::Toon) == Ok::<Seq<char>, Seq<char>>(body) ==> http_body(
            j,
            WireFormat::Toon,
        ) == ("text/toon; charset=utf-8"@, body),
        encoded(j, format) == Err::<Seq<char>, Seq<char>>(body) ==> http_body(j, format).0
            == "application/json"@,
{
}

} // verus!
