//! JSON and TOON request bodies for MCP, ACP, HTTP and stdio RPC.
//!
//! JSON is for people. TOON is the compact encoding for language-model
//! tools. A document without a declared encoding is JSON when it starts with
//! `{` or `[`, else TOON.
use vstd::prelude::*;

use crate::json::{json_of, Json};
use crate::paths::{lemma_split_around, lemma_split_before, opt_str};
use crate::text::{
    blank, chars_of, is_white, lemma_trim_lead, lower, lower_char, same_ascii, same_str, split_at_char, split_char,
    to_lower, trim, trim_end, trim_start, trimmed, trimmed_start, views,
};

verus! {

/// Wire encoding of one RPC document.
#[derive(Clone, Copy, Debug, PartialEq, Eq, Structural)]
pub enum WireFormat {
    Json,
    Toon,
}

/// JSON media type.
pub const JSON_MEDIA: &'static str = "application/json";

/// TOON media type.
pub const TOON_MEDIA: &'static str = "text/toon";

/// The encoding of a media type. Parameters are ignored.
pub open spec fn media_format(raw: Seq<char>) -> Option<WireFormat> {
    let media = lower(trim(split_char(raw, ';')[0]));
    if media == "application/json"@ || media == "text/json"@ {
        Some(WireFormat::Json)
    } else if media == "text/toon"@ || media == "application/toon"@ {
        Some(WireFormat::Toon)
    } else {
        None
    }
}

/// The encoding of a `format=` query value.
pub open spec fn query_format(value: Option<Seq<char>>) -> Option<WireFormat> {
    match value {
        Some(v) => {
            let name = lower(trim(v));
            if name == "toon"@ {
                Some(WireFormat::Toon)
            } else if name == "json"@ {
                Some(WireFormat::Json)
            } else {
                None
            }
        },
        None => None,
    }
}

/// The first encoding that `parts` name.
pub open spec fn first_format(parts: Seq<Seq<char>>) -> Option<WireFormat>
    decreases parts.len(),
{
    if parts.len() == 0 {
        None
    } else {
        match first_format(parts.drop_last()) {
            Some(f) => Some(f),
            None => media_format(parts.last()),
        }
    }
}

/// The first encoding that an `Accept` header names.
pub open spec fn accept_format(accept: Option<Seq<char>>) -> Option<WireFormat> {
    match accept {
        Some(a) => first_format(split_char(a, ',')),
        None => None,
    }
}

/// The encoding of a response.
pub open spec fn response_format(
    prefer_toon: bool,
    query: Option<Seq<char>>,
    accept: Option<Seq<char>>,
    request: WireFormat,
) -> WireFormat {
    if prefer_toon {
        WireFormat::Toon
    } else {
        match query_format(query) {
            Some(f) => f,
            None => match accept_format(accept) {
                Some(f) => f,
                None => request,
            },
        }
    }
}

impl WireFormat {
    /// The encoding of a `Content-Type` or `Accept` media type. Parameters
    /// are ignored.
    pub fn from_media_type(raw: &str) -> (r: Option<WireFormat>)
        ensures
            r == media_format(raw@),
    {
        let parts = split_at_char(raw, ';');
        proof {
            assert(views(parts@)[0] == parts@[0]@);
        }
        let media = to_lower(trimmed(parts[0].as_str()).as_str());
        let m = media.as_str();
        if same_str(m, "application/json") || same_str(m, "text/json") {
            Some(WireFormat::Json)
        } else if same_str(m, "text/toon") || same_str(m, "application/toon") {
            Some(WireFormat::Toon)
        } else {
            None
        }
    }

    /// The encoding of a `format=toon` or `format=json` query value.
    pub fn from_query_format(value: Option<&str>) -> (r: Option<WireFormat>)
        ensures
            r == query_format(opt_str(value)),
    {
        match value {
            Some(v) => {
                let name = to_lower(trimmed(v).as_str());
                if same_str(name.as_str(), "toon") {
                    Some(WireFormat::Toon)
                } else if same_str(name.as_str(), "json") {
                    Some(WireFormat::Json)
                } else {
                    None
                }
            },
            None => None,
        }
    }

    /// The encoding of a response: the preference for TOON, then the query
    /// value, then the `Accept` header, then the encoding of the request.
    pub fn response(
        prefer_toon: bool,
        query: Option<&str>,
        accept: Option<&str>,
        request: WireFormat,
    ) -> (r: WireFormat)
        ensures
            r == response_format(prefer_toon, opt_str(query), opt_str(accept), request),
    {
        if prefer_toon {
            return WireFormat::Toon;
        }
        match WireFormat::from_query_format(query) {
            Some(f) => {
                return f;
            },
            None => {},
        }
        match accept {
            Some(a) => {
                let parts = split_at_char(a, ',');
                let ghost all = split_char(a@, ',');
                let mut i: usize = 0;
                proof {
                    assert(all.take(0) =~= Seq::<Seq<char>>::empty());
                }
                while i < parts.len()
                    invariant
                        i <= parts@.len(),
                        all == views(parts@),
                        first_format(all.take(i as int)) is None,
                        all == split_char(a@, ','),
                        opt_str(accept) == Some(a@),
                        query_format(opt_str(query)) is None,
                        !prefer_toon,
                    decreases parts.len() - i,
                {
                    proof {
                        assert(all.take(i + 1).drop_last() =~= all.take(i as int));
                        assert(all.take(i + 1).last() == parts@[i as int]@);
                    }
                    match WireFormat::from_media_type(parts[i].as_str()) {
                        Some(f) => {
                            proof {
                                lemma_first_format_stays(all, i + 1);
                            }
                            return f;
                        },
                        None => {},
                    }
                    i = i + 1;
                }
                proof {
                    assert(all.take(all.len() as int) =~= all);
                }
            },
            None => {},
        }
        request
    }

    /// `Content-Type` value of a response in this format.
    pub fn content_type(self) -> (r: &'static str)
        ensures
            r@ == (match self {
                WireFormat::Json => "application/json"@,
                WireFormat::Toon => "text/toon; charset=utf-8"@,
            }),
    {
        match self {
            WireFormat::Json => "application/json",
            WireFormat::Toon => "text/toon; charset=utf-8",
        }
    }
}

proof fn lemma_first_format_stays(parts: Seq<Seq<char>>, n: int)
    requires
        0 <= n <= parts.len(),
        first_format(parts.take(n)) is Some,
    ensures
        first_format(parts) == first_format(parts.take(n)),
    decreases parts.len(),
{
    if n < parts.len() {
        assert(parts.drop_last().take(n) =~= parts.take(n));
        lemma_first_format_stays(parts.drop_last(), n);
    } else {
        assert(parts.take(n) =~= parts);
    }
}

/// A document that starts with `{` or `[`.
pub open spec fn json_shaped(text: Seq<char>) -> bool {
    let t = trim_start(text);
    t.len() > 0 && (t[0] == '{' || t[0] == '[')
}

fn looks_like_json(text: &str) -> (r: bool)
    ensures
        r == json_shaped(text@),
{
    let t = trimmed_start(text);
    let v = chars_of(t.as_str());
    v.len() > 0 && (v[0] == '{' || v[0] == '[')
}

/// What `serde_json::from_str` reads from a text, or its error message.
pub uninterp spec fn json_parsed(text: Seq<char>) -> Result<Json, Seq<char>>;

/// What `toon_format::decode_default` reads from a text, or its error
/// message.
pub uninterp spec fn toon_parsed(text: Seq<char>) -> Result<Json, Seq<char>>;

/// The text that `serde_json::to_string` writes of a document.
pub uninterp spec fn json_written(j: Json) -> Seq<char>;

/// The text that `toon_format::encode_default` writes of a document, or its
/// error message.
pub uninterp spec fn toon_written(j: Json) -> Result<Seq<char>, Seq<char>>;

/// `r` is a parsed document, or a message.
pub open spec fn is_parsed(r: Result<serde_json::Value, String>, p: Result<Json, Seq<char>>) -> bool {
    match r {
        Ok(v) => p == Ok::<Json, Seq<char>>(json_of(v)),
        Err(e) => p == Err::<Json, Seq<char>>(e@),
    }
}

/// Calls `serde_json::from_str` for a `serde_json::Value`. The document and
/// the message of an error are functions of the text.
#[verifier::external_body]
fn parse_json(text: &str) -> (r: Result<serde_json::Value, String>)
    ensures
        is_parsed(r, json_parsed(text@)),
{
    serde_json::from_str(text).map_err(|error| error.to_string())
}

/// Calls `toon_format::decode_default` for a `serde_json::Value`. The
/// document and the message of an error are functions of the text.
#[verifier::external_body]
fn parse_toon(text: &str) -> (r: Result<serde_json::Value, String>)
    ensures
        is_parsed(r, toon_parsed(text@)),
{
    toon_format::decode_default(text).map_err(|error| error.to_string())
}

/// Calls `serde_json::to_string` on a document. The text is a function of
/// what the document holds. Writing a `serde_json::Value` does not fail: its
/// object keys are strings.
#[verifier::external_body]
fn write_json_text(v: &serde_json::Value) -> (r: Result<String, String>)
    ensures
        match r {
            Ok(s) => s@ == json_written(json_of(*v)),
            Err(_) => false,
        },
{
    serde_json::to_string(v).map_err(|error| error.to_string())
}

/// Calls `toon_format::encode_default` on a document. The text and the
/// message of an error are functions of what the document holds.
#[verifier::external_body]
fn write_toon_text(v: &serde_json::Value) -> (r: Result<String, String>)
    ensures
        match r {
            Ok(s) => toon_written(json_of(*v)) == Ok::<Seq<char>, Seq<char>>(s@),
            Err(e) => toon_written(json_of(*v)) == Err::<Seq<char>, Seq<char>>(e@),
        },
{
    toon_format::encode_default(v).map_err(|error| error.to_string())
}

/// What a document is, given what each parser reads from its trimmed text.
pub open spec fn document(
    text: Seq<char>,
    json: Result<Json, Seq<char>>,
    toon: Result<Json, Seq<char>>,
) -> Result<(Json, WireFormat), Seq<char>> {
    if trim(text).len() == 0 {
        Err("empty request"@)
    } else if json_shaped(trim(text)) {
        match json {
            Ok(j) => Ok((j, WireFormat::Json)),
            Err(e) => Err(e),
        }
    } else {
        match toon {
            Ok(j) => Ok((j, WireFormat::Toon)),
            Err(e) => match json {
                Ok(j) => Ok((j, WireFormat::Json)),
                Err(_) => Err(e),
            },
        }
    }
}

/// `r` is the document `d`.
pub open spec fn is_document(
    r: Result<(serde_json::Value, WireFormat), String>,
    d: Result<(Json, WireFormat), Seq<char>>,
) -> bool {
    match r {
        Ok((v, f)) => d == Ok::<(Json, WireFormat), Seq<char>>((json_of(v), f)),
        Err(e) => d == Err::<(Json, WireFormat), Seq<char>>(e@),
    }
}

/// Chooses between what the two parsers read from the trimmed `text`. The
/// caller runs the TOON parser only on text that is not shaped like JSON.
pub fn choose_document(
    text: &str,
    json: Result<serde_json::Value, String>,
    toon: Option<Result<serde_json::Value, String>>,
) -> (r: Result<(serde_json::Value, WireFormat), String>)
    requires
        trim(text@).len() > 0,
        toon is None <==> json_shaped(trim(text@)),
    ensures
        forall|j: Result<Json, Seq<char>>, t: Result<Json, Seq<char>>|
            is_parsed(json, j) && (toon matches Some(x) ==> is_parsed(x, t)) ==> is_document(
                r,
                #[trigger] document(text@, j, t),
            ),
{
    match toon {
        None => match json {
            Ok(v) => Ok((v, WireFormat::Json)),
            Err(e) => Err(e),
        },
        Some(Ok(v)) => Ok((v, WireFormat::Toon)),
        Some(Err(e)) => match json {
            Ok(v) => Ok((v, WireFormat::Json)),
            Err(_) => Err(e),
        },
    }
}

/// Parses one RPC document: JSON when the text starts with `{` or `[`, else
/// TOON, else JSON after all.
pub fn parse_rpc_value(text: &str) -> (r: Result<(serde_json::Value, WireFormat), String>)
    ensures
        is_document(r, document(text@, json_parsed(trim(text@)), toon_parsed(trim(text@)))),
{
    let body = trimmed(text);
    if body.is_empty() {
        return Err("empty request".to_owned());
    }
    let json = parse_json(body.as_str());
    let toon = if looks_like_json(body.as_str()) {
        None
    } else {
        Some(parse_toon(body.as_str()))
    };
    choose_document(text, json, toon)
}

/// What encoding a document gives.
pub open spec fn encoded(j: Json, format: WireFormat) -> Result<Seq<char>, Seq<char>> {
    match format {
        WireFormat::Json => Ok(json_written(j)),
        WireFormat::Toon => toon_written(j),
    }
}

/// Encodes one RPC document.
pub fn encode_rpc(value: &serde_json::Value, format: WireFormat) -> (r: Result<String, String>)
    ensures
        match r {
            Ok(s) => encoded(json_of(*value), format) == Ok::<Seq<char>, Seq<char>>(s@),
            Err(e) => encoded(json_of(*value), format) == Err::<Seq<char>, Seq<char>>(e@),
        },
{
    match format {
        WireFormat::Json => write_json_text(value),
        WireFormat::Toon => write_toon_text(value),
    }
}

proof fn lemma_trim_tail(s: Seq<char>, tail: Seq<char>)
    requires
        blank(tail),
    ensures
        trim_end(s + tail) == trim_end(s),
    decreases tail.len(),
{
    if tail.len() == 0 {
        assert(s + tail =~= s);
    } else {
        assert((s + tail).last() == tail.last());
        assert((s + tail).drop_last() =~= s + tail.drop_last());
        assert(tail[tail.len() - 1] == tail.last());
        lemma_trim_tail(s, tail.drop_last());
    }
}

proof fn lemma_trim_around(s: Seq<char>, tail: Seq<char>)
    requires
        blank(tail),
    ensures
        trim(s + tail) == trim(s),
    decreases s.len(),
{
    if s.len() == 0 {
        let none = Seq::<char>::empty();
        assert(s + tail =~= tail + none);
        lemma_trim_lead(tail, none);
        assert(s =~= none);
    } else if is_white(s[0]) {
        assert((s + tail)[0] == s[0]);
        assert((s + tail).drop_first() =~= s.drop_first() + tail);
        lemma_trim_around(s.drop_first(), tail);
    } else {
        assert((s + tail)[0] == s[0]);
        lemma_trim_tail(s, tail);
    }
}

proof fn lemma_trim_start_lower(s: Seq<char>)
    ensures
        trim_start(lower(s)) == lower(trim_start(s)),
    decreases s.len(),
{
    if s.len() > 0 {
        assert(is_white(lower_char(s[0])) == is_white(s[0]));
        assert(lower(s).drop_first() =~= lower(s.drop_first()));
        lemma_trim_start_lower(s.drop_first());
    }
}

proof fn lemma_trim_end_lower(s: Seq<char>)
    ensures
        trim_end(lower(s)) == lower(trim_end(s)),
    decreases s.len(),
{
    if s.len() > 0 {
        assert(is_white(lower_char(s.last())) == is_white(s.last()));
        assert(lower(s).drop_last() =~= lower(s.drop_last()));
        lemma_trim_end_lower(s.drop_last());
    }
}

proof fn lemma_one_piece(s: Seq<char>)
    requires
        !s.contains(';'),
    ensures
        split_char(s, ';') == seq![s],
{
    let none = Seq::<char>::empty();
    lemma_split_before(none, ';', s);
    assert(none + s =~= s);
    assert(split_char(none, ';') =~= seq![none]);
    assert(seq![none].drop_last().push(s) =~= seq![s]);
}

/// White space around a media type, its letter case and parameters after it
/// change nothing.
pub proof fn law_media_type(
    media: Seq<char>,
    spelled: Seq<char>,
    lead: Seq<char>,
    tail: Seq<char>,
    params: Seq<char>,
)
    requires
        !media.contains(';'),
        lower(spelled) == lower(media),
        blank(lead),
        blank(tail),
    ensures
        media_format(lead + spelled + tail) == media_format(media),
        media_format(lead + spelled + tail + seq![';'] + params) == media_format(media),
{
    let s = lead + spelled + tail;
    assert(!s.contains(';')) by {
        if s.contains(';') {
            let i = choose|i: int| 0 <= i < s.len() && s[i] == ';';
            if i < lead.len() {
                assert(is_white(lead[i]));
            } else if i < lead.len() + spelled.len() {
                let k = i - lead.len();
                assert(spelled[k] == s[i]);
                assert(spelled.len() == lower(spelled).len() == media.len());
                assert(lower(spelled)[k] == lower_char(spelled[k]));
                assert(lower(media)[k] == lower_char(media[k]));
                assert(media[k] == ';');
            } else {
                assert(is_white(tail[i - lead.len() - spelled.len()]));
            }
        }
    }
    lemma_one_piece(media);
    lemma_one_piece(s);
    lemma_split_around(s, ';', params);
    assert((split_char(s, ';') + split_char(params, ';'))[0] == s);
    assert(s =~= lead + (spelled + tail));
    lemma_trim_lead(lead, spelled + tail);
    lemma_trim_around(spelled, tail);
    lemma_trim_start_lower(spelled);
    lemma_trim_start_lower(media);
    lemma_trim_end_lower(trim_start(spelled));
    lemma_trim_end_lower(trim_start(media));
}

/// The media types that name an encoding.
pub proof fn law_known_media_types(media: Seq<char>)
    requires
        !media.contains(';'),
    ensures
        media_format(media) == Some(WireFormat::Json) <==> same_ascii(
            trim(media),
            "application/json"@,
        ) || same_ascii(trim(media), "text/json"@),
        media_format(media) == Some(WireFormat::Toon) <==> same_ascii(trim(media), "text/toon"@)
            || same_ascii(trim(media), "application/toon"@),
{
    reveal_strlit("application/json");
    reveal_strlit("text/json");
    reveal_strlit("text/toon");
    reveal_strlit("application/toon");
    lemma_one_piece(media);
    assert(lower("application/json"@) =~= "application/json"@);
    assert(lower("text/json"@) =~= "text/json"@);
    assert(lower("text/toon"@) =~= "text/toon"@);
    assert(lower("application/toon"@) =~= "application/toon"@);
    assert("application/json"@.len() == 16);
    assert("text/json"@.len() == 9);
    assert("application/toon"@[12] == 't');
    assert("application/json"@[12] == 'j');
    assert("text/json"@[5] == 'j');
    assert("text/toon"@[5] == 't');
}

/// The format of a query is `toon` or `json`, in either case and with white
/// space around it. Another word is none.
pub proof fn law_query_format(v: Seq<char>)
    ensures
        query_format(Some(v)) == Some(WireFormat::Toon) <==> same_ascii(trim(v), "toon"@),
        query_format(Some(v)) == Some(WireFormat::Json) <==> same_ascii(trim(v), "json"@),
        query_format(None) is None,
{
    reveal_strlit("toon");
    reveal_strlit("json");
    assert(lower("toon"@) =~= "toon"@);
    assert(lower("json"@) =~= "json"@);
    assert("toon"@[0] == 't' && "json"@[0] == 'j');
}

/// A reply is TOON when that is preferred, else in the format of the query,
/// else in the first format that the caller accepts, else in that of the
/// request.
pub proof fn law_reply_format(
    query: Option<Seq<char>>,
    accept: Option<Seq<char>>,
    request: WireFormat,
    parts: Seq<Seq<char>>,
    k: int,
)
    ensures
        response_format(true, query, accept, request) == WireFormat::Toon,
        query_format(query) is Some ==> response_format(false, query, accept, request)
            == query_format(query)->0,
        query_format(query) is None && accept is Some && split_char(accept->0, ',') == parts && 0
            <= k < parts.len() && media_format(parts[k]) is Some && (forall|j: int|
            0 <= j < k ==> media_format(#[trigger] parts[j]) is None) ==> response_format(
            false,
            query,
            accept,
            request,
        ) == media_format(parts[k])->0,
        query_format(query) is None && accept is Some && split_char(accept->0, ',') == parts && (
        forall|j: int| 0 <= j < parts.len() ==> media_format(#[trigger] parts[j]) is None)
            ==> response_format(false, query, accept, request) == request,
        query_format(query) is None && accept is None ==> response_format(
            false,
            query,
            accept,
            request,
        ) == request,
{
    lemma_first_format(parts, k);
}

proof fn lemma_first_format(parts: Seq<Seq<char>>, k: int)
    ensures
        0 <= k < parts.len() && media_format(parts[k]) is Some && (forall|j: int|
            0 <= j < k ==> media_format(#[trigger] parts[j]) is None) ==> first_format(parts)
            == media_format(parts[k]),
        (forall|j: int| 0 <= j < parts.len() ==> media_format(#[trigger] parts[j]) is None)
            ==> first_format(parts) is None,
    decreases parts.len(),
{
    if parts.len() > 0 {
        let init = parts.drop_last();
        lemma_first_format(init, k);
        assert(forall|j: int| 0 <= j < init.len() ==> #[trigger] init[j] == parts[j]);
        if k == parts.len() - 1 && (forall|j: int|
            0 <= j < k ==> media_format(#[trigger] parts[j]) is None) {
            assert(forall|j: int| 0 <= j < init.len() ==> media_format(#[trigger] init[j]) is None);
        }
    }
}

/// A request that opens with a brace or a bracket is read as JSON alone. Any
/// other is read as TOON, and as JSON where that fails. A blank request is
/// refused.
pub proof fn law_request_document(
    text: Seq<char>,
    json: Result<Json, Seq<char>>,
    toon: Result<Json, Seq<char>>,
)
    ensures
        trim(text).len() == 0 ==> document(text, json, toon) is Err,
        text.len() > 0 && (text[0] == '{' || text[0] == '[') && json is Ok ==> document(
            text,
            json,
            toon,
        ) == Ok::<(Json, WireFormat), Seq<char>>((json->Ok_0, WireFormat::Json)),
        text.len() > 0 && (text[0] == '{' || text[0] == '[') && json is Err ==> document(
            text,
            json,
            toon,
        ) == Err::<(Json, WireFormat), Seq<char>>(json->Err_0),
        text.len() > 0 && !is_white(text[0]) && text[0] != '{' && text[0] != '[' && toon is Ok
            ==> document(text, json, toon) == Ok::<(Json, WireFormat), Seq<char>>(
            (toon->Ok_0, WireFormat::Toon),
        ),
        text.len() > 0 && !is_white(text[0]) && text[0] != '{' && text[0] != '[' && toon is Err
            && json is Ok ==> document(text, json, toon) == Ok::<(Json, WireFormat), Seq<char>>(
            (json->Ok_0, WireFormat::Json),
        ),
        text.len() > 0 && !is_white(text[0]) && text[0] != '{' && text[0] != '[' && toon is Err
            && json is Err ==> document(text, json, toon) == Err::<(Json, WireFormat), Seq<char>>(
            toon->Err_0,
        ),
{
    if text.len() > 0 && !is_white(text[0]) {
        assert(trim_start(text) == text);
        lemma_first_stays(text);
    }
}

proof fn lemma_first_stays(s: Seq<char>)
    requires
        s.len() > 0,
        !is_white(s[0]),
    ensures
        trim_end(s).len() > 0,
        trim_end(s)[0] == s[0],
    decreases s.len(),
{
    if is_white(s.last()) {
        assert(s.drop_last().len() > 0);
        assert(s.drop_last()[0] == s[0]);
        lemma_first_stays(s.drop_last());
    }
}

} // verus!
