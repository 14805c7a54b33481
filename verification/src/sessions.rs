//! Session folders: a chat history of JSON lines and a summary.
use vstd::prelude::*;

use crate::cards::{has_extension, path_has_extension};
use crate::catalog::ExportManifest;
use crate::merge::{filled, nonempty};
use crate::number::is_digit;
use crate::pairs::union;
use crate::paths::{
    components, extension, file_name, file_name_of, joined, law_joined_name, opt_view, parent_name,
    parent_name_of, plain_name, same_path,
};
use crate::records::{
    bare, bare_response, empty_conversation, empty_response, Conversation, ConversationView,
    Response, ResponseItem, ResponseItemView, ResponseView,
};
use crate::schema::{opt_atom, union_extra, Atom, ExtraMap, JsonAtom};
use crate::search::copied_opt;
use crate::sqlite::{text_atom, with_atom};
use crate::text::{cat3, chars_of, decimal, decimal_usize, eq_ascii, same_ascii, views};
use crate::Error;

verus! {

/// The chat history of a session.
pub const CHAT_HISTORY_FILE_NAME: &'static str = "chat_history.jsonl";

/// The summary of a session.
pub const SUMMARY_FILE_NAME: &'static str = "summary.json";

/// A summary file.
pub struct SessionSummaryFile {
    pub id: Option<String>,
    pub generated_title: Option<String>,
    pub title: Option<String>,
    pub session_summary: Option<String>,
    pub extra: ExtraMap,
}

/// One line of a chat history.
pub struct SessionJsonlLine {
    pub kind: Option<String>,
    pub content: Option<JsonAtom>,
    pub line_id: Option<String>,
    pub id: Option<String>,
    pub model: Option<String>,
    pub model_id: Option<String>,
    pub extra: ExtraMap,
}

/// The first of two optional values that is there.
pub open spec fn first_of<T>(a: Option<T>, b: Option<T>) -> Option<T> {
    if a is Some {
        a
    } else {
        b
    }
}

/// The second of two optional values, where the first is there too.
pub open spec fn second_of<T>(a: Option<T>, b: Option<T>) -> Option<T> {
    if a is Some {
        b
    } else {
        None
    }
}

/// The text, unless it takes the place of its field.
pub open spec fn unless<T>(taken: bool, s: Option<T>) -> Option<T> {
    if taken {
        None
    } else {
        s
    }
}

/// Puts a text that is not `taken` under a key.
fn put_unless(extra: &mut ExtraMap, key: &str, taken: bool, s: &Option<String>)
    ensures
        final(extra)@ == with_atom(old(extra)@, key@, text_atom(unless(taken, opt_view(*s)))),
{
    if let Some(text) = s {
        if !taken {
            extra.insert(key.to_owned(), JsonAtom::String(text.clone()));
        }
    }
}

fn first_text(a: Option<String>, b: Option<String>) -> (r: Option<String>)
    ensures
        opt_view(r) == first_of(opt_view(a), opt_view(b)),
{
    if a.is_some() {
        a
    } else {
        b
    }
}

/// The keys of a summary that take no field of the conversation: those that
/// it does not know, a title beside a generated one, and empty texts.
pub open spec fn summary_extra(s: SessionSummaryFile) -> Seq<(Seq<char>, Atom)> {
    let generated = opt_view(s.generated_title);
    let title = opt_view(s.title);
    let summary = opt_view(s.session_summary);
    let e1 = with_atom(
        s.extra@,
        "generated_title"@,
        text_atom(unless(filled(generated), generated)),
    );
    let e2 = with_atom(
        e1,
        "title"@,
        text_atom(unless(generated is None && filled(title), title)),
    );
    with_atom(e2, "session_summary"@, text_atom(unless(filled(summary), summary)))
}

/// A conversation with what a summary says of it.
pub open spec fn summarized(c: ConversationView, s: SessionSummaryFile) -> ConversationView {
    let title = first_of(opt_view(s.generated_title), opt_view(s.title));
    ConversationView {
        id: first_of(opt_view(s.id), c.id),
        title: if filled(title) {
            title
        } else {
            c.title
        },
        summary: if filled(opt_view(s.session_summary)) {
            opt_view(s.session_summary)
        } else {
            c.summary
        },
        extra: union(c.extra, summary_extra(s), true),
        ..c
    }
}

/// Takes what a summary says into the conversation.
pub fn apply_session_summary(conversation: Conversation, s: SessionSummaryFile) -> (r: Conversation)
    ensures
        r@ == summarized(conversation@, s),
{
    let use_summary = nonempty(&s.session_summary);
    let mut extra = s.extra;
    put_unless(&mut extra, "generated_title", nonempty(&s.generated_title), &s.generated_title);
    let own_title = s.generated_title.is_none() && nonempty(&s.title);
    put_unless(&mut extra, "title", own_title, &s.title);
    put_unless(&mut extra, "session_summary", use_summary, &s.session_summary);
    let title = first_text(s.generated_title, s.title);
    let use_title = nonempty(&title);
    Conversation {
        id: first_text(s.id, conversation.id),
        title: if use_title {
            title
        } else {
            conversation.title
        },
        summary: if use_summary {
            s.session_summary
        } else {
            conversation.summary
        },
        extra: union_extra(conversation.extra, extra, true),
        ..conversation
    }
}

/// The keys of a line that take no field of the response: those that it does
/// not know, and the second of two ids or models.
pub open spec fn line_extra(line: SessionJsonlLine) -> Seq<(Seq<char>, Atom)> {
    let e1 = with_atom(
        line.extra@,
        "id"@,
        text_atom(second_of(opt_view(line.line_id), opt_view(line.id))),
    );
    with_atom(
        e1,
        "model_id"@,
        text_atom(second_of(opt_view(line.model), opt_view(line.model_id))),
    )
}

/// The response of a line.
pub open spec fn line_response(line: SessionJsonlLine, conversation: Option<Seq<char>>) ->
    ResponseItemView {
    bare(
        ResponseView {
            _id: first_of(opt_view(line.line_id), opt_view(line.id)),
            conversation_id: conversation,
            message: opt_atom(line.content),
            model: first_of(opt_view(line.model), opt_view(line.model_id)),
            sender: opt_view(line.kind),
            extra: line_extra(line),
            ..empty_response()
        },
    )
}

/// The response of a line.
pub fn session_line_to_response(line: SessionJsonlLine, conversation_id: &Option<String>) -> (r:
    ResponseItem)
    ensures
        r@ == line_response(line, opt_view(*conversation_id)),
{
    let mut extra = line.extra;
    put_unless(&mut extra, "id", line.line_id.is_none(), &line.id);
    put_unless(&mut extra, "model_id", line.model.is_none(), &line.model_id);
    bare_response(
        Response {
            _id: first_text(line.line_id, line.id),
            conversation_id: copied_opt(conversation_id),
            message: line.content,
            model: first_text(line.model, line.model_id),
            sender: line.kind,
            extra,
            ..Default::default()
        },
    )
}

/// The name of the session folder, when it has one.
pub open spec fn folder_id(dir: Seq<char>) -> Option<Seq<char>> {
    if filled(file_name(dir)) {
        file_name(dir)
    } else {
        None
    }
}

/// The conversation of a session folder, before its responses.
pub open spec fn session_head(dir: Seq<char>, s: Option<SessionSummaryFile>) -> ConversationView {
    let start = ConversationView { id: folder_id(dir), ..empty_conversation() };
    match s {
        Some(file) => summarized(start, file),
        None => start,
    }
}

/// The conversation of a session folder: its name is the id, unless the
/// summary has one.
pub fn session_conversation(dir: &str, s: Option<SessionSummaryFile>) -> (r: Conversation)
    ensures
        r@ == session_head(dir@, s),
{
    let name = file_name_of(dir);
    let id = if nonempty(&name) {
        name
    } else {
        None
    };
    let start = Conversation { id, ..Default::default() };
    match s {
        Some(file) => apply_session_summary(start, file),
        None => start,
    }
}

/// A hexadecimal digit.
pub open spec fn is_hex(c: char) -> bool {
    is_digit(c) || 'a' <= c <= 'f' || 'A' <= c <= 'F'
}

/// 32 hexadecimal digits, or 36 characters with dashes in the places of a
/// uuid.
pub open spec fn uuid_like(s: Seq<char>) -> bool {
    ||| s.len() == 32 && forall|i: int| 0 <= i < s.len() ==> is_hex(#[trigger] s[i])
    ||| s.len() == 36 && s[8] == '-' && s[13] == '-' && s[18] == '-' && s[23] == '-'
        && forall|i: int| 0 <= i < s.len() ==> is_hex(#[trigger] s[i]) || s[i] == '-'
}

/// Whether a name looks like a uuid.
pub fn looks_like_uuid(name: &str) -> (r: bool)
    ensures
        r == uuid_like(name@),
{
    let v = chars_of(name);
    let size: usize = v.len();
    let dashed = size == 36;
    if size != 32 && !dashed {
        return false;
    }
    if dashed && (v[8] != '-' || v[13] != '-' || v[18] != '-' || v[23] != '-') {
        return false;
    }
    let mut i: usize = 0;
    while i < size
        invariant
            i <= size,
            size == v@.len(),
            size == 32 || size == 36,
            dashed == (size == 36),
            v@ == name@,
            forall|k: int| 0 <= k < i ==> is_hex(#[trigger] v@[k]) || (dashed && v@[k] == '-'),
        decreases size - i,
    {
        let c = v[i];
        let hex = ('0' <= c && c <= '9') || ('a' <= c && c <= 'f') || ('A' <= c && c <= 'F');
        if !hex && !(dashed && c == '-') {
            proof {
                assert(!is_hex(name@[i as int]));
            }
            return false;
        }
        i = i + 1;
    }
    true
}

/// The id of an export: the name of its folder when it looks like a uuid.
pub open spec fn id_of_export(path: Seq<char>) -> Option<Seq<char>> {
    match parent_name(path) {
        Some(name) => if uuid_like(name) {
            Some(name)
        } else {
            None
        },
        None => None,
    }
}

/// The id of an export.
pub fn export_id(path: &str) -> (r: Option<String>)
    ensures
        opt_view(r) == id_of_export(path@),
{
    match parent_name_of(path) {
        Some(name) => if looks_like_uuid(&name) {
            Some(name)
        } else {
            None
        },
        None => None,
    }
}

/// The export entry of a session that was read from `source_path`.
pub fn session_manifest(source_path: &str, id: &Option<String>, extra: ExtraMap) -> (r:
    ExportManifest)
    ensures
        r.source_path@ == source_path@,
        opt_view(r.id) == (if opt_view(*id) is Some && uuid_like(opt_view(*id)->0) {
            opt_view(*id)
        } else {
            None
        }),
        r.extra == extra,
{
    let kept = match id {
        Some(x) => if looks_like_uuid(x) {
            Some(x.clone())
        } else {
            None
        },
        None => None,
    };
    ExportManifest { source_path: source_path.to_owned(), id: kept, extra }
}

/// Whether a file holds JSON lines.
pub fn is_jsonl(path: &str) -> (r: bool)
    ensures
        r == has_extension(path@, "jsonl"@),
{
    path_has_extension(path, "jsonl")
}

/// The file name is `want`, up to case.
pub open spec fn named(path: Seq<char>, want: Seq<char>) -> bool {
    match file_name(path) {
        Some(name) => same_ascii(name, want),
        None => false,
    }
}

/// Whether the file name is `want`, up to case.
pub fn is_named(path: &str, want: &str) -> (r: bool)
    ensures
        r == named(path@, want@),
{
    match file_name_of(path) {
        Some(name) => eq_ascii(&name, want),
        None => false,
    }
}

/// Whether a file is a chat history.
pub fn is_chat_history_file(path: &str) -> (r: bool)
    ensures
        r == named(path@, CHAT_HISTORY_FILE_NAME@),
{
    is_named(path, CHAT_HISTORY_FILE_NAME)
}

/// The JSON lines to read for a session file: the file itself when it is
/// the chat history or there is none beside it.
pub fn session_lines_path<'a>(path: &'a str, history: Option<&'a str>) -> (r: &'a str)
    ensures
        r@ == (if named(path@, CHAT_HISTORY_FILE_NAME@) || history is None {
            path@
        } else {
            history->0@
        }),
{
    if is_chat_history_file(path) {
        return path;
    }
    match history {
        Some(chat) => chat,
        None => path,
    }
}

/// A file beside a chat history that is kept as leftover lines.
pub open spec fn leftover(path: Seq<char>, ingested: Seq<Seq<char>>) -> bool {
    &&& has_extension(path, "jsonl"@)
    &&& !named(path, CHAT_HISTORY_FILE_NAME@)
    &&& !exists|i: int| 0 <= i < ingested.len() && components(#[trigger] ingested[i]) == components(path)
}

/// Whether a file beside a chat history is kept as leftover lines.
pub fn is_leftover(path: &str, ingested: &Vec<String>) -> (r: bool)
    ensures
        r == leftover(path@, views(ingested@)),
{
    if !is_jsonl(path) || is_chat_history_file(path) {
        return false;
    }
    let ghost all = views(ingested@);
    let mut i: usize = 0;
    while i < ingested.len()
        invariant
            i <= ingested@.len(),
            all == views(ingested@),
            forall|k: int| 0 <= k < i ==> components(#[trigger] all[k]) != components(path@),
        decreases ingested.len() - i,
    {
        if same_path(&ingested[i], path) {
            proof {
                assert(components(all[i as int]) == components(path@));
            }
            return false;
        }
        i = i + 1;
    }
    true
}

/// Text of the error for a line that does not parse.
pub open spec fn line_failure(path: Seq<char>, line: nat, error: Seq<char>) -> Seq<char> {
    "failed to parse "@ + path + " line "@ + decimal(line) + ": "@ + error
}

/// The error for a line that does not parse. Lines are counted from 1.
pub fn line_error(path: &str, line: usize, error: &str) -> (r: Error)
    ensures
        match r {
            Error::Ingest(m) => m@ == line_failure(path@, line as nat, error@),
            _ => false,
        },
{
    let mut m = cat3("failed to parse ", path, " line ");
    m.push_str(&decimal_usize(line));
    m.push_str(": ");
    m.push_str(error);
    Error::Ingest(m)
}

/// A summary gives a session its generated title, else its title, and its
/// summary text. Empty texts change nothing.
pub proof fn law_summary_names_the_session(dir: Seq<char>, s: SessionSummaryFile, t: Seq<char>)
    requires
        t.len() > 0,
    ensures
        ({
            let c = session_head(dir, Some(s));
            &&& opt_view(s.generated_title) == Some(t) ==> c.title == Some(t)
            &&& opt_view(s.generated_title) is None && opt_view(s.title) == Some(t) ==> c.title
                == Some(t)
            &&& opt_view(s.generated_title) is None && opt_view(s.title) is None ==> c.title is None
            &&& opt_view(s.session_summary) == Some(t) ==> c.summary == Some(t)
            &&& opt_view(s.session_summary) is None ==> c.summary is None
            &&& opt_view(s.id) == Some(t) ==> c.id == Some(t)
            &&& opt_view(s.id) is None && file_name(dir) == Some(t) ==> c.id == Some(t)
        }),
        file_name(dir) == Some(t) ==> session_head(dir, None).id == Some(t),
        session_head(dir, None).title is None,
{
}

/// A line is a response with its content, its model and its kind as the
/// sender. The line id goes before the id, the model before the model id.
pub proof fn law_line_is_a_response(
    line: SessionJsonlLine,
    conversation: Option<Seq<char>>,
    t: Seq<char>,
)
    ensures
        ({
            let r = line_response(line, conversation).response;
            &&& r.message == opt_atom(line.content)
            &&& r.sender == opt_view(line.kind)
            &&& r.conversation_id == conversation
            &&& opt_view(line.line_id) == Some(t) ==> r._id == Some(t)
            &&& opt_view(line.line_id) is None ==> r._id == opt_view(line.id)
            &&& opt_view(line.model) == Some(t) ==> r.model == Some(t)
            &&& opt_view(line.model) is None ==> r.model == opt_view(line.model_id)
        }),
{
}

/// A hexadecimal digit, in either case.
pub open spec fn hex_letter(c: char) -> bool {
    '0' <= c <= '9' || 'a' <= c <= 'f' || 'A' <= c <= 'F'
}

/// A name looks like a UUID when it has 32 hexadecimal digits, or these in
/// groups with a dash behind the 8th, 12th, 16th and 20th. A name of another
/// length, or with another character, does not.
pub proof fn law_uuid(s: Seq<char>)
    ensures
        s.len() == 32 && (forall|i: int| 0 <= i < 32 ==> hex_letter(#[trigger] s[i])) ==> uuid_like(s),
        s.len() == 36 && (forall|i: int|
            0 <= i < 36 ==> if i == 8 || i == 13 || i == 18 || i == 23 {
                #[trigger] s[i] == '-'
            } else {
                hex_letter(s[i])
            }) ==> uuid_like(s),
        s.len() != 32 && s.len() != 36 ==> !uuid_like(s),
        (exists|i: int| 0 <= i < s.len() && !hex_letter(#[trigger] s[i]) && s[i] != '-')
            ==> !uuid_like(s),
        s.len() == 32 && s.contains('-') ==> !uuid_like(s),
        s.len() == 36 && !(s[8] == '-' && s[13] == '-' && s[18] == '-' && s[23] == '-')
            ==> !uuid_like(s),
{
    assert(forall|c: char| hex_letter(c) == is_hex(c));
    if s.len() == 36 && (forall|i: int|
        0 <= i < 36 ==> if i == 8 || i == 13 || i == 18 || i == 23 {
            #[trigger] s[i] == '-'
        } else {
            hex_letter(s[i])
        }) {
        assert(s[8] == '-' && s[13] == '-' && s[18] == '-' && s[23] == '-');
    }
}

/// An export has an id when the folder of its file looks like a UUID.
pub proof fn law_export_id(dir: Seq<char>, id: Seq<char>, name: Seq<char>)
    requires
        plain_name(id),
        plain_name(name),
    ensures
        id_of_export(joined(joined(dir, id), name)) == if uuid_like(id) {
            Some(id)
        } else {
            None
        },
{
    law_joined_name(dir, id);
    law_joined_name(joined(dir, id), name);
}

/// A file of lines that is no chat history, and that no session took, is left
/// over.
pub proof fn law_leftover(path: Seq<char>, ingested: Seq<Seq<char>>)
    ensures
        ingested.contains(path) ==> !leftover(path, ingested),
        leftover(path, ingested) ==> extension(path) is Some && same_ascii(
            extension(path)->0,
            "jsonl"@,
        ),
        file_name(path) == Some("chat_history.jsonl"@) ==> !leftover(path, ingested),
        leftover(path, Seq::empty()) <==> extension(path) is Some && same_ascii(
            extension(path)->0,
            "jsonl"@,
        ) && !(file_name(path) is Some && same_ascii(file_name(path)->0, "chat_history.jsonl"@)),
{
    if ingested.contains(path) {
        let i = choose|i: int| 0 <= i < ingested.len() && ingested[i] == path;
        assert(components(ingested[i]) == components(path));
    }
}

} // verus!
