//! Telegram Desktop exports.
//!
//! A single-chat export has `id`, `messages`, `name` and `type` at the top.
//! A full-account export has `personal_information` and `chats.list`.
use vstd::prelude::*;

use crate::merge::{filled, nonempty};
use crate::number::{all_digits, char_is_digit, is_digit};
use crate::pairs::{kept, law_placed_is_found, lookup, placed, union};
use crate::paths::opt_view;
use crate::records::{
    atom_to_timestamp, bare, bare_response, empty_conversation, empty_response, plain_item,
    response_views, stamp_of, Conversation, ConversationItem, ConversationView, ItemView, Response,
    ResponseItem, ResponseItemView, ResponseView, Stamp,
};
use crate::schema::{atoms, lemma_atom, opt_atom, union_extra, Atom, ExtraMap, JsonAtom};
use crate::search::copied_opt;
use crate::sqlite::{text_atom, with_atom};
use crate::text::{
    chars_of, decimal, decimal_i64, decimal_int, decimal_u64, same_str,
};

verus! {

/// The account of an export.
#[derive(Debug, Clone, PartialEq, Eq)]
pub struct TelegramMeta {
    pub username: Option<String>,
}

/// Keys at the top of a document that tell an export.
pub struct PeekKeys {
    pub has_id: bool,
    pub has_messages: bool,
    pub has_name: bool,
    pub has_type: bool,
    pub has_personal_information: bool,
    pub has_chats: bool,
    pub has_left_chats: bool,
    pub username: Option<String>,
}

impl PeekKeys {
    /// The keys of one chat, or those of an account.
    pub open spec fn telegram(self) -> bool {
        ||| self.has_id && self.has_messages && self.has_name && self.has_type
        ||| self.has_personal_information && (self.has_chats || self.has_left_chats)
    }

    /// These keys and one more.
    pub open spec fn with(self, key: Seq<char>) -> PeekKeys {
        PeekKeys {
            has_id: self.has_id || key == "id"@,
            has_messages: self.has_messages || key == "messages"@,
            has_name: self.has_name || key == "name"@,
            has_type: self.has_type || key == "type"@,
            has_personal_information: self.has_personal_information || key
                == "personal_information"@,
            has_chats: self.has_chats || key == "chats"@,
            has_left_chats: self.has_left_chats || key == "left_chats"@,
            username: self.username,
        }
    }

    /// No key seen yet.
    pub fn new() -> (r: PeekKeys)
        ensures
            !r.has_id && !r.has_messages && !r.has_name && !r.has_type
                && !r.has_personal_information && !r.has_chats && !r.has_left_chats,
            r.username is None,
    {
        PeekKeys {
            has_id: false,
            has_messages: false,
            has_name: false,
            has_type: false,
            has_personal_information: false,
            has_chats: false,
            has_left_chats: false,
            username: None,
        }
    }

    /// Notes a key at the top of the document.
    pub fn saw(self, key: &str) -> (r: PeekKeys)
        ensures
            r == self.with(key@),
    {
        PeekKeys {
            has_id: self.has_id || same_str(key, "id"),
            has_messages: self.has_messages || same_str(key, "messages"),
            has_name: self.has_name || same_str(key, "name"),
            has_type: self.has_type || same_str(key, "type"),
            has_personal_information: self.has_personal_information || same_str(
                key,
                "personal_information",
            ),
            has_chats: self.has_chats || same_str(key, "chats"),
            has_left_chats: self.has_left_chats || same_str(key, "left_chats"),
            username: self.username,
        }
    }

    /// Whether the keys tell an export.
    pub fn is_telegram(&self) -> (r: bool)
        ensures
            r == self.telegram(),
    {
        (self.has_id && self.has_messages && self.has_name && self.has_type) || (
        self.has_personal_information && self.has_chats) || (self.has_personal_information
            && self.has_left_chats)
    }

    /// The account, when the keys tell an export.
    pub fn meta(self) -> (r: Option<TelegramMeta>)
        ensures
            match r {
                Some(m) => self.telegram() && m.username == self.username,
                None => !self.telegram(),
            },
    {
        if self.is_telegram() {
            Some(TelegramMeta { username: self.username })
        } else {
            None
        }
    }
}

/// The username, unless it is empty.
pub fn nonempty_username(username: Option<String>) -> (r: Option<String>)
    ensures
        opt_view(r) == if filled(opt_view(username)) {
            opt_view(username)
        } else {
            None
        },
{
    if nonempty(&username) {
        username
    } else {
        None
    }
}

/// Values of an object are smaller than the object.
pub proof fn lemma_lookup_smaller(fs: Seq<(Seq<char>, Atom)>, key: Seq<char>)
    ensures
        lookup(fs, key) is Some ==> decreases_to!(fs => lookup(fs, key)->0),
    decreases fs.len(),
{
    if fs.len() > 0 {
        let n = fs.len() - 1;
        if fs.last().0 == key {
            assert(decreases_to!(fs => fs[n]));
            assert(decreases_to!(fs[n] => fs[n].1));
        } else {
            lemma_lookup_smaller(fs.drop_last(), key);
            assert(decreases_to!(fs => fs.drop_last()));
        }
    }
}

/// The text of a message: strings, the parts of arrays, and the `text` of
/// objects, one after the other.
pub open spec fn message_text(a: Atom) -> Seq<char>
    decreases a,
{
    match a {
        Atom::Text(s) => s,
        Atom::Arr(v) => messages_text(v),
        Atom::Obj(fs) => {
            proof {
                lemma_lookup_smaller(fs, "text"@);
            }
            match lookup(fs, "text"@) {
                Some(x) => message_text(x),
                None => Seq::empty(),
            }
        },
        _ => Seq::empty(),
    }
}

/// The texts of message parts, one after the other.
pub open spec fn messages_text(v: Seq<Atom>) -> Seq<char>
    decreases v,
{
    if v.len() == 0 {
        Seq::empty()
    } else {
        messages_text(v.drop_last()) + message_text(v[v.len() - 1])
    }
}

/// Appends the text of a message.
pub fn push_telegram_text(out: &mut String, a: &JsonAtom)
    ensures
        final(out)@ == old(out)@ + message_text(a@),
    decreases a@,
{
    let ghost start = out@;
    match a {
        JsonAtom::String(s) => {
            out.push_str(s);
        },
        JsonAtom::Array(parts) => {
            let ghost all = atoms(parts@);
            let mut i: usize = 0;
            proof {
                lemma_atom(*parts, ExtraMap { entries: arbitrary() });
                assert(all.take(0) =~= Seq::<Atom>::empty());
                assert(start + messages_text(all.take(0)) =~= start);
            }
            while i < parts.len()
                invariant
                    i <= parts@.len(),
                    all == atoms(parts@),
                    a@ == Atom::Arr(all),
                    out@ == start + messages_text(all.take(i as int)),
                decreases parts.len() - i,
            {
                proof {
                    assert(all.take(i + 1).drop_last() =~= all.take(i as int));
                    assert(decreases_to!(a@ => a@->Arr_0));
                    assert(decreases_to!(all => all[i as int]));
                    assert(all[i as int] == parts@[i as int]@);
                }
                push_telegram_text(out, &parts[i]);
                proof {
                    assert(out@ =~= start + messages_text(all.take(i + 1)));
                }
                i = i + 1;
            }
            proof {
                assert(all.take(all.len() as int) =~= all);
            }
        },
        JsonAtom::Object(fields) => {
            proof {
                lemma_atom(arbitrary(), *fields);
                lemma_lookup_smaller(fields@, "text"@);
                assert(decreases_to!(a@ => a@->Obj_0));
            }
            match fields.get("text") {
                Some(x) => {
                    push_telegram_text(out, x);
                },
                None => {
                    proof {
                        assert(start + Seq::<char>::empty() =~= start);
                    }
                },
            }
        },
        _ => {
            proof {
                assert(start + Seq::<char>::empty() =~= start);
            }
        },
    }
}

/// The text, unless it is empty.
pub open spec fn some_text(s: Seq<char>) -> Option<Seq<char>> {
    if s.len() == 0 {
        None
    } else {
        Some(s)
    }
}

/// The text of a message, unless it is empty.
pub fn concat_telegram_text(a: &JsonAtom) -> (r: Option<String>)
    ensures
        opt_view(r) == some_text(message_text(a@)),
{
    let mut out = String::new();
    push_telegram_text(&mut out, a);
    proof {
        assert(out@ =~= message_text(a@));
    }
    if out.is_empty() {
        None
    } else {
        Some(out)
    }
}

/// Decimal digits after at most one minus sign.
pub open spec fn whole_number(s: Seq<char>) -> bool {
    all_digits(s) || (s.len() > 0 && s[0] == '-' && all_digits(s.skip(1)))
}

/// Whether the decimal notation of a number has no fraction.
pub fn is_whole_number(text: &str) -> (r: bool)
    ensures
        r == whole_number(text@),
{
    let v = chars_of(text);
    let size: usize = v.len();
    if size == 0 {
        return false;
    }
    let from: usize = if v[0] == '-' {
        1
    } else {
        0
    };
    let mut i: usize = from;
    while i < size
        invariant
            from <= i <= size,
            size == v@.len(),
            size > 0,
            from == if v@[0] == '-' {
                1int
            } else {
                0int
            },
            v@ == text@,
            forall|k: int| from <= k < i ==> is_digit(#[trigger] v@[k]),
        decreases size - i,
    {
        if !char_is_digit(v[i]) {
            proof {
                assert(!is_digit(text@[i as int]));
                if from == 1 {
                    assert(text@.skip(1)[i - 1] == text@[i as int]);
                    assert(!is_digit(text@[0]));
                }
            }
            return false;
        }
        i = i + 1;
    }
    proof {
        if from == 1 {
            assert forall|k: int| 0 <= k < text@.skip(1).len() implies is_digit(
                #[trigger] text@.skip(1)[k],
            ) by {
                assert(is_digit(v@[k + 1]));
            }
            assert(!is_digit(text@[0]));
        }
    }
    size > from
}

/// An id as text. Numbers must be whole.
pub open spec fn id_text(a: Atom) -> Option<Seq<char>> {
    match a {
        Atom::Text(s) => some_text(s),
        Atom::I64(i) => Some(decimal_int(i as int)),
        Atom::U64(u) => Some(decimal(u as nat)),
        Atom::F64(_, t) => if whole_number(t) {
            Some(t)
        } else {
            None
        },
        _ => None,
    }
}

/// The id text of an optional value.
pub open spec fn opt_id(a: Option<Atom>) -> Option<Seq<char>> {
    match a {
        Some(x) => id_text(x),
        None => None,
    }
}

/// An id as text.
pub fn stringify_id(a: &JsonAtom) -> (r: Option<String>)
    ensures
        opt_view(r) == id_text(a@),
{
    match a {
        JsonAtom::String(s) => if s.is_empty() {
            None
        } else {
            Some(s.clone())
        },
        JsonAtom::I64(i) => Some(decimal_i64(*i)),
        JsonAtom::U64(u) => Some(decimal_u64(*u)),
        JsonAtom::F64(f) => if is_whole_number(&f.text) {
            Some(f.text.clone())
        } else {
            None
        },
        _ => None,
    }
}

fn id_of(a: &Option<JsonAtom>) -> (r: Option<String>)
    ensures
        opt_view(r) == opt_id(opt_atom(*a)),
{
    match a {
        Some(x) => stringify_id(x),
        None => None,
    }
}

/// A string that is not empty.
pub open spec fn own_text(a: Option<Atom>) -> Option<Seq<char>> {
    match a {
        Some(Atom::Text(s)) => some_text(s),
        _ => None,
    }
}

/// A string that is not empty.
pub fn json_atom_text(a: &Option<JsonAtom>) -> (r: Option<String>)
    ensures
        opt_view(r) == own_text(opt_atom(*a)),
{
    match a {
        Some(JsonAtom::String(s)) => if s.is_empty() {
            None
        } else {
            Some(s.clone())
        },
        Some(_) => None,
        None => None,
    }
}

/// One message of a chat.
pub struct TelegramMessage {
    pub id: Option<JsonAtom>,
    pub from: Option<JsonAtom>,
    pub from_id: Option<JsonAtom>,
    pub date: Option<JsonAtom>,
    pub text: Option<JsonAtom>,
    pub extra: ExtraMap,
}

/// An id that does not become the id of a record.
pub open spec fn odd_id(a: Option<Atom>) -> Option<Atom> {
    if opt_id(a) is None {
        a
    } else {
        None
    }
}

/// The response of a message. Its own fields stay with the leftover keys.
pub open spec fn message_response(m: TelegramMessage) -> ResponseItemView {
    let e1 = with_atom(m.extra@, "from"@, opt_atom(m.from));
    let e2 = with_atom(e1, "from_id"@, opt_atom(m.from_id));
    let e3 = with_atom(e2, "date"@, opt_atom(m.date));
    let e4 = with_atom(e3, "text"@, opt_atom(m.text));
    let e5 = with_atom(e4, "id"@, odd_id(opt_atom(m.id)));
    bare(
        ResponseView {
            _id: opt_id(opt_atom(m.id)),
            message: match opt_atom(m.text) {
                Some(a) => text_atom(some_text(message_text(a))),
                None => None,
            },
            sender: own_text(opt_atom(m.from)),
            create_time: match opt_atom(m.date) {
                Some(a) => Some(stamp_of(a)),
                None => None,
            },
            extra: e5,
            ..empty_response()
        },
    )
}

fn insert_some(extra: &mut ExtraMap, key: &str, a: &Option<JsonAtom>)
    ensures
        final(extra)@ == with_atom(old(extra)@, key@, opt_atom(*a)),
{
    if let Some(x) = a {
        extra.insert(key.to_owned(), x.copied());
    }
}

impl TelegramMessage {
    /// The response of the message.
    pub fn into_response(self) -> (r: ResponseItem)
        ensures
            r@ == message_response(self),
    {
        let ghost whole = self;
        let message = match &self.text {
            Some(a) => match concat_telegram_text(a) {
                Some(s) => Some(JsonAtom::String(s)),
                None => None,
            },
            None => None,
        };
        let mut extra = self.extra;
        insert_some(&mut extra, "from", &self.from);
        insert_some(&mut extra, "from_id", &self.from_id);
        insert_some(&mut extra, "date", &self.date);
        insert_some(&mut extra, "text", &self.text);
        let id = id_of(&self.id);
        if id.is_none() {
            insert_some(&mut extra, "id", &self.id);
        }
        let sender = json_atom_text(&self.from);
        let create_time = match self.date {
            Some(a) => Some(atom_to_timestamp(a)),
            None => None,
        };
        bare_response(
            Response {
                _id: id,
                message,
                sender,
                create_time,
                extra,
                ..Default::default()
            },
        )
    }
}

/// `extra` with a value under a free key.
pub open spec fn with_kept(extra: Seq<(Seq<char>, Atom)>, key: Seq<char>, a: Option<Atom>) -> Seq<
    (Seq<char>, Atom),
> {
    match a {
        Some(x) => kept(extra, key, x),
        None => extra,
    }
}

/// A response of the conversation.
pub open spec fn in_conversation(x: ResponseItemView, id: Option<Seq<char>>) -> ResponseItemView {
    if x.response.conversation_id is None {
        ResponseItemView {
            response: ResponseView { conversation_id: id, ..x.response },
            ..x
        }
    } else {
        x
    }
}

/// The leftover keys of a chat with its own fields.
pub open spec fn chat_extra(
    id: Option<Atom>,
    name: Option<Atom>,
    kind: Option<Atom>,
    extra: Seq<(Seq<char>, Atom)>,
) -> Seq<(Seq<char>, Atom)> {
    with_kept(with_kept(with_kept(extra, "name"@, name), "type"@, kind), "id"@, id)
}

/// The conversation of a chat.
pub open spec fn chat(
    id: Option<Atom>,
    name: Option<Atom>,
    kind: Option<Atom>,
    extra: Seq<(Seq<char>, Atom)>,
    responses: Seq<ResponseItemView>,
) -> ItemView {
    plain_item(
        ConversationView {
            id: opt_id(id),
            title: own_text(name),
            extra: chat_extra(id, name, kind, extra),
            ..empty_conversation()
        },
        Seq::new(responses.len(), |i: int| in_conversation(responses[i], opt_id(id))),
    )
}

fn keep_some(extra: &mut ExtraMap, key: &str, a: &Option<JsonAtom>)
    ensures
        final(extra)@ == with_kept(old(extra)@, key@, opt_atom(*a)),
{
    if let Some(x) = a {
        extra.or_insert(key.to_owned(), x.copied());
    }
}

/// The leftover keys of a chat with its own fields.
fn keep_own(
    id: &Option<JsonAtom>,
    name: &Option<JsonAtom>,
    kind: &Option<JsonAtom>,
    extra: ExtraMap,
) -> (r: ExtraMap)
    ensures
        r@ == chat_extra(opt_atom(*id), opt_atom(*name), opt_atom(*kind), extra@),
{
    let mut out = extra;
    keep_some(&mut out, "name", name);
    keep_some(&mut out, "type", kind);
    keep_some(&mut out, "id", id);
    out
}

/// The conversation of a chat.
pub fn chat_item(
    id: Option<JsonAtom>,
    name: Option<JsonAtom>,
    kind: Option<JsonAtom>,
    extra: ExtraMap,
    responses: Vec<ResponseItem>,
) -> (r: ConversationItem)
    ensures
        r@ == chat(
            opt_atom(id),
            opt_atom(name),
            opt_atom(kind),
            extra@,
            response_views(responses@),
        ),
{
    let ghost given = response_views(responses@);
    let ghost want = chat(opt_atom(id), opt_atom(name), opt_atom(kind), extra@, given);
    let conversation_id = id_of(&id);
    let extra = keep_own(&id, &name, &kind, extra);
    let title = json_atom_text(&name);
    let mut responses = responses;
    let mut i: usize = 0;
    while i < responses.len()
        invariant
            i <= responses@.len(),
            responses@.len() == given.len(),
            forall|k: int|
                0 <= k < i ==> (#[trigger] responses@[k])@ == in_conversation(
                    given[k],
                    opt_view(conversation_id),
                ),
            forall|k: int| i <= k < given.len() ==> (#[trigger] responses@[k])@ == given[k],
        decreases responses.len() - i,
    {
        if responses[i].response.conversation_id.is_none() {
            responses[i].response.conversation_id = copied_opt(&conversation_id);
        }
        i = i + 1;
    }
    let r = ConversationItem {
        conversation: Conversation { id: conversation_id, title, extra, ..Default::default() },
        responses,
        extra: ExtraMap::new(),
    };
    proof {
        assert(r@.responses =~= want.responses);
        assert(r@.conversation =~= want.conversation);
    }
    r
}

/// How the value of a key at the top of an export is read.
#[derive(Clone, Copy, Debug, PartialEq, Eq, Structural)]
pub enum RootKey {
    /// A value that the chat keeps.
    Value,
    /// An array of messages.
    Messages,
    /// The account of the export.
    Account,
    /// An object with a list of chats.
    Chats,
}

/// How the value of a key is read.
pub open spec fn root_kind(key: Seq<char>) -> RootKey {
    if key == "messages"@ {
        RootKey::Messages
    } else if key == "personal_information"@ {
        RootKey::Account
    } else if key == "chats"@ || key == "left_chats"@ {
        RootKey::Chats
    } else {
        RootKey::Value
    }
}

/// How the value of a key at the top of an export is read.
pub fn root_key(key: &str) -> (r: RootKey)
    ensures
        r == root_kind(key@),
{
    if same_str(key, "messages") {
        RootKey::Messages
    } else if same_str(key, "personal_information") {
        RootKey::Account
    } else if same_str(key, "chats") || same_str(key, "left_chats") {
        RootKey::Chats
    } else {
        RootKey::Value
    }
}

/// What has been read of a chat.
pub struct ChatState {
    pub id: Option<JsonAtom>,
    pub name: Option<JsonAtom>,
    pub kind: Option<JsonAtom>,
    pub extra: ExtraMap,
    pub responses: Vec<ResponseItem>,
}

/// What has been read of a chat.
#[verifier::ext_equal]
pub struct ChatView {
    pub id: Option<Atom>,
    pub name: Option<Atom>,
    pub kind: Option<Atom>,
    pub extra: Seq<(Seq<char>, Atom)>,
    pub responses: Seq<ResponseItemView>,
}

impl View for ChatState {
    type V = ChatView;

    open spec fn view(&self) -> ChatView {
        ChatView {
            id: opt_atom(self.id),
            name: opt_atom(self.name),
            kind: opt_atom(self.kind),
            extra: self.extra@,
            responses: response_views(self.responses@),
        }
    }
}

/// A chat after one more value.
pub open spec fn chat_with(c: ChatView, key: Seq<char>, a: Atom) -> ChatView {
    if key == "id"@ {
        ChatView { id: Some(a), ..c }
    } else if key == "name"@ {
        ChatView { name: Some(a), ..c }
    } else if key == "type"@ {
        ChatView { kind: Some(a), ..c }
    } else {
        ChatView { extra: placed(c.extra, key, a), ..c }
    }
}

/// The conversation of a chat that has been read.
pub open spec fn chat_of(c: ChatView) -> ItemView {
    chat(c.id, c.name, c.kind, c.extra, c.responses)
}

impl ChatState {
    /// Nothing read yet.
    pub fn new() -> (r: ChatState)
        ensures
            r@ == (ChatView {
                id: None,
                name: None,
                kind: None,
                extra: Seq::empty(),
                responses: Seq::empty(),
            }),
    {
        let r = ChatState {
            id: None,
            name: None,
            kind: None,
            extra: ExtraMap::new(),
            responses: Vec::new(),
        };
        proof {
            assert(r@.responses =~= Seq::<ResponseItemView>::empty());
        }
        r
    }

    /// Reads one more value.
    pub fn value(&mut self, key: String, a: JsonAtom)
        ensures
            final(self)@ == chat_with(old(self)@, key@, a@),
    {
        if same_str(&key, "id") {
            self.id = Some(a);
        } else if same_str(&key, "name") {
            self.name = Some(a);
        } else if same_str(&key, "type") {
            self.kind = Some(a);
        } else {
            self.extra.insert(key, a);
        }
    }

    /// Reads one more message.
    pub fn message(&mut self, m: TelegramMessage)
        ensures
            final(self)@ == (ChatView {
                responses: old(self)@.responses.push(message_response(m)),
                ..old(self)@
            }),
    {
        let ghost held = self@;
        self.responses.push(m.into_response());
        proof {
            assert(self@.responses =~= held.responses.push(message_response(m)));
        }
    }

    /// The conversation of the chat.
    pub fn into_item(self) -> (r: ConversationItem)
        ensures
            r@ == chat_of(self@),
    {
        chat_item(self.id, self.name, self.kind, self.extra, self.responses)
    }
}

/// What has been read at the top of an export.
pub struct RootState {
    pub chat: ChatState,
    pub saw_messages: bool,
    pub saw_account: bool,
    pub export_extra: ExtraMap,
}

/// What has been read at the top of an export.
#[verifier::ext_equal]
pub struct RootView {
    pub chat: ChatView,
    pub saw_messages: bool,
    pub saw_account: bool,
    pub export_extra: Seq<(Seq<char>, Atom)>,
}

impl View for RootState {
    type V = RootView;

    open spec fn view(&self) -> RootView {
        RootView {
            chat: self.chat@,
            saw_messages: self.saw_messages,
            saw_account: self.saw_account,
            export_extra: self.export_extra@,
        }
    }
}

/// The top of an export is itself a chat.
pub open spec fn root_is_chat(s: RootView) -> bool {
    s.saw_messages || (!s.saw_account && (s.chat.id is Some || s.chat.name is Some))
}

/// Nothing read yet.
pub open spec fn empty_root() -> RootView {
    RootView {
        chat: ChatView {
            id: None,
            name: None,
            kind: None,
            extra: Seq::empty(),
            responses: Seq::empty(),
        },
        saw_messages: false,
        saw_account: false,
        export_extra: Seq::empty(),
    }
}

/// The top of an export after a key whose value is read in parts.
pub open spec fn root_saw(s: RootView, kind: RootKey) -> RootView {
    RootView {
        saw_messages: s.saw_messages || kind == RootKey::Messages,
        saw_account: s.saw_account || kind == RootKey::Account || kind == RootKey::Chats,
        ..s
    }
}

/// The top of an export after one more value: the account stays with the
/// export, another value with the chat.
pub open spec fn root_with(s: RootView, key: Seq<char>, a: Atom) -> RootView {
    if root_kind(key) == RootKey::Account {
        RootView { saw_account: true, export_extra: placed(s.export_extra, key, a), ..s }
    } else {
        RootView { chat: chat_with(s.chat, key, a), ..s }
    }
}

/// The top of an export after what stood beside a list of chats: it stays with
/// the export, unless there is nothing.
pub open spec fn root_beside(
    s: RootView,
    key: Seq<char>,
    rest: Seq<(Seq<char>, Atom)>,
) -> RootView {
    if rest.len() == 0 {
        s
    } else {
        RootView { export_extra: placed(s.export_extra, key, Atom::Obj(rest)), ..s }
    }
}

/// The keys that stay with the export. Where the top is no chat, its own
/// fields are among them.
pub open spec fn root_extra(s: RootView) -> Seq<(Seq<char>, Atom)> {
    if root_is_chat(s) {
        s.export_extra
    } else {
        union(
            s.export_extra,
            chat_extra(s.chat.id, s.chat.name, s.chat.kind, s.chat.extra),
            false,
        )
    }
}

impl RootState {
    /// Nothing read yet.
    pub fn new() -> (r: RootState)
        ensures
            r@ == empty_root(),
    {
        RootState {
            chat: ChatState::new(),
            saw_messages: false,
            saw_account: false,
            export_extra: ExtraMap::new(),
        }
    }

    /// Notes a key whose value is read in parts.
    pub fn saw(&mut self, kind: RootKey)
        ensures
            final(self)@ == root_saw(old(self)@, kind),
    {
        match kind {
            RootKey::Messages => {
                self.saw_messages = true;
            },
            RootKey::Account | RootKey::Chats => {
                self.saw_account = true;
            },
            RootKey::Value => {},
        }
    }

    /// Reads one more value: the account stays with the export, another
    /// value with the chat.
    pub fn value(&mut self, key: String, a: JsonAtom)
        ensures
            final(self)@ == root_with(old(self)@, key@, a@),
    {
        if root_key(&key) == RootKey::Account {
            self.saw_account = true;
            self.export_extra.insert(key, a);
        } else {
            self.chat.value(key, a);
        }
    }

    /// Keeps what stood beside a list of chats.
    pub fn beside(&mut self, key: String, rest: ExtraMap)
        ensures
            final(self)@ == root_beside(old(self)@, key@, rest@),
    {
        proof {
            lemma_atom(arbitrary(), rest);
        }
        if !rest.is_empty() {
            self.export_extra.insert(key, JsonAtom::Object(rest));
        }
    }

    /// The end of the document: the chat at the top, if it is one, and the
    /// keys that stay with the export.
    pub fn finish(self) -> (r: (Option<ConversationItem>, ExtraMap))
        ensures
            match r.0 {
                Some(item) => root_is_chat(self@) && item@ == chat_of(self@.chat),
                None => !root_is_chat(self@),
            },
            r.1@ == root_extra(self@),
    {
        if self.saw_messages || (!self.saw_account && (self.chat.id.is_some()
            || self.chat.name.is_some())) {
            (Some(self.chat.into_item()), self.export_extra)
        } else {
            let chat = self.chat;
            let own = keep_own(&chat.id, &chat.name, &chat.kind, chat.extra);
            (None, union_extra(self.export_extra, own, false))
        }
    }
}

/// The keys of a root, read one after the other.
pub open spec fn keys_seen(names: Seq<Seq<char>>) -> PeekKeys
    decreases names.len(),
{
    if names.len() == 0 {
        PeekKeys {
            has_id: false,
            has_messages: false,
            has_name: false,
            has_type: false,
            has_personal_information: false,
            has_chats: false,
            has_left_chats: false,
            username: None,
        }
    } else {
        keys_seen(names.drop_last()).with(names.last())
    }
}

proof fn lemma_key_seen(names: Seq<Seq<char>>, key: Seq<char>)
    requires
        names.len() > 0,
    ensures
        names.contains(key) <==> names.drop_last().contains(key) || names.last() == key,
{
    let init = names.drop_last();
    if init.contains(key) {
        let i = choose|i: int| 0 <= i < init.len() && init[i] == key;
        assert(names[i] == key);
    }
    if names.contains(key) {
        let i = choose|i: int| 0 <= i < names.len() && names[i] == key;
        if i < init.len() {
            assert(init[i] == key);
        }
    }
    if names.last() == key {
        assert(names[names.len() - 1] == key);
    }
}

/// A file is a Telegram export by the keys of its root: those of one chat, or
/// those of a whole account. Their order does not matter.
pub proof fn law_export_by_its_keys(names: Seq<Seq<char>>)
    ensures
        keys_seen(names).telegram() <==> {
            ||| names.contains("id"@) && names.contains("messages"@) && names.contains("name"@)
                && names.contains("type"@)
            ||| names.contains("personal_information"@) && (names.contains("chats"@)
                || names.contains("left_chats"@))
        },
{
    lemma_keys_seen(names);
}

proof fn lemma_keys_seen(names: Seq<Seq<char>>)
    ensures
        keys_seen(names).has_id == names.contains("id"@),
        keys_seen(names).has_messages == names.contains("messages"@),
        keys_seen(names).has_name == names.contains("name"@),
        keys_seen(names).has_type == names.contains("type"@),
        keys_seen(names).has_personal_information == names.contains("personal_information"@),
        keys_seen(names).has_chats == names.contains("chats"@),
        keys_seen(names).has_left_chats == names.contains("left_chats"@),
    decreases names.len(),
{
    if names.len() > 0 {
        lemma_keys_seen(names.drop_last());
        lemma_key_seen(names, "id"@);
        lemma_key_seen(names, "messages"@);
        lemma_key_seen(names, "name"@);
        lemma_key_seen(names, "type"@);
        lemma_key_seen(names, "personal_information"@);
        lemma_key_seen(names, "chats"@);
        lemma_key_seen(names, "left_chats"@);
    }
}

/// The text of a message: a string is its own text, pieces follow each other
/// in order, and an object gives its `text`.
pub proof fn law_message_text(
    a: Seq<Atom>,
    b: Seq<Atom>,
    x: Atom,
    s: Seq<char>,
    fs: Seq<(Seq<char>, Atom)>,
)
    ensures
        message_text(Atom::Text(s)) == s,
        message_text(Atom::Arr(a + b)) == message_text(Atom::Arr(a)) + message_text(Atom::Arr(b)),
        message_text(Atom::Arr(seq![x])) == message_text(x),
        lookup(fs, "text"@) == Some(x) ==> message_text(Atom::Obj(fs)) == message_text(x),
        message_text(Atom::Arr(Seq::empty())).len() == 0,
{
    lemma_pieces_text(a, b);
    reveal_with_fuel(messages_text, 2);
    let one = seq![x];
    assert(one.drop_last() =~= Seq::<Atom>::empty());
    assert(messages_text(one) =~= message_text(x));
}

proof fn lemma_pieces_text(a: Seq<Atom>, b: Seq<Atom>)
    ensures
        messages_text(a + b) == messages_text(a) + messages_text(b),
    decreases b.len(),
{
    if b.len() == 0 {
        assert(a + b =~= a);
        assert(messages_text(a) + messages_text(b) =~= messages_text(a));
    } else {
        lemma_pieces_text(a, b.drop_last());
        assert((a + b).drop_last() =~= a + b.drop_last());
        assert(messages_text(a + b) =~= messages_text(a) + messages_text(b));
    }
}

/// An id is a string that is not empty, or a whole number in decimal.
pub proof fn law_ids(s: Seq<char>, i: i64, u: u64, bits: u64, b: bool)
    ensures
        opt_id(Some(Atom::Text(s))) == if s.len() > 0 {
            Some(s)
        } else {
            None
        },
        opt_id(Some(Atom::U64(u))) == Some(decimal(u as nat)),
        i >= 0 ==> opt_id(Some(Atom::I64(i))) == Some(decimal(i as nat)),
        i < 0 ==> opt_id(Some(Atom::I64(i))) == Some(seq!['-'] + decimal((-i) as nat)),
        s.contains('.') || s.contains('e') ==> opt_id(Some(Atom::F64(bits, s))) is None,
        opt_id(Some(Atom::Bool(b))) is None,
        opt_id(Some(Atom::Null)) is None,
        opt_id(None) is None,
{
    if s.contains('.') || s.contains('e') {
        let k = choose|k: int| 0 <= k < s.len() && (s[k] == '.' || s[k] == 'e');
        assert(!is_digit(s[k]));
        if k > 0 {
            assert(s.skip(1)[k - 1] == s[k]);
        }
    }
}

/// A message says its text, under its id, its sender and its time, and its
/// own fields are kept beside them.
pub proof fn law_message_says_its_text(m: TelegramMessage, s: Seq<char>, from: Seq<char>, t: Seq<char>)
    requires
        s.len() > 0,
        from.len() > 0,
    ensures
        opt_atom(m.text) == Some(Atom::Text(s)) ==> message_response(m).response.message == Some(
            Atom::Text(s),
        ),
        opt_atom(m.text) is None ==> message_response(m).response.message is None,
        opt_atom(m.from) == Some(Atom::Text(from)) ==> message_response(m).response.sender == Some(
            from,
        ),
        opt_atom(m.id) == Some(Atom::Text(from)) ==> message_response(m).response._id == Some(from),
        opt_atom(m.date) == Some(Atom::Text(t)) ==> message_response(m).response.create_time
            == Some(Stamp::Iso(t)),
        opt_atom(m.text) is Some ==> lookup(message_response(m).response.extra, "text"@)
            == opt_atom(m.text),
        opt_atom(m.date) is Some ==> lookup(message_response(m).response.extra, "date"@)
            == opt_atom(m.date),
        opt_atom(m.from) is Some ==> lookup(message_response(m).response.extra, "from"@)
            == opt_atom(m.from),
        opt_atom(m.from_id) is Some ==> lookup(message_response(m).response.extra, "from_id"@)
            == opt_atom(m.from_id),
{
    reveal_strlit("from");
    reveal_strlit("from_id");
    reveal_strlit("date");
    reveal_strlit("text");
    reveal_strlit("id");
    assert("from"@[0] == 'f' && "date"@[0] == 'd' && "text"@[0] == 't' && "from_id"@.len() == 7
        && "id"@.len() == 2 && "from"@.len() == 4);
    let e1 = with_atom(m.extra@, "from"@, opt_atom(m.from));
    let e2 = with_atom(e1, "from_id"@, opt_atom(m.from_id));
    let e3 = with_atom(e2, "date"@, opt_atom(m.date));
    let e4 = with_atom(e3, "text"@, opt_atom(m.text));
    lemma_with_atom(m.extra@, "from"@, opt_atom(m.from));
    lemma_with_atom(e1, "from_id"@, opt_atom(m.from_id));
    lemma_with_atom(e2, "date"@, opt_atom(m.date));
    lemma_with_atom(e3, "text"@, opt_atom(m.text));
    lemma_with_atom(e4, "id"@, odd_id(opt_atom(m.id)));
}

proof fn lemma_with_atom(fs: Seq<(Seq<char>, Atom)>, key: Seq<char>, a: Option<Atom>)
    ensures
        a is Some ==> lookup(with_atom(fs, key, a), key) == a,
        forall|other: Seq<char>|
            other != key ==> #[trigger] lookup(with_atom(fs, key, a), other) == lookup(fs, other),
{
    if a is Some {
        law_placed_is_found(fs, key, a->0, key);
        assert forall|other: Seq<char>| other != key implies #[trigger] lookup(
            with_atom(fs, key, a),
            other,
        ) == lookup(fs, other) by {
            law_placed_is_found(fs, key, a->0, other);
        }
    }
}

/// A chat has its name as the title and all its messages, in order and each
/// under the id of the chat.
pub proof fn law_chat_holds_its_messages(c: ChatView, s: Seq<char>, id: Seq<char>, j: int)
    requires
        s.len() > 0,
        id.len() > 0,
        0 <= j < c.responses.len(),
    ensures
        chat_of(c).responses.len() == c.responses.len(),
        chat_of(c).responses[j].response.message == c.responses[j].response.message,
        chat_of(c).responses[j].response.sender == c.responses[j].response.sender,
        chat_of(c).responses[j].response.extra == c.responses[j].response.extra,
        c.name == Some(Atom::Text(s)) ==> chat_of(c).conversation.title == Some(s),
        c.id == Some(Atom::Text(id)) ==> chat_of(c).conversation.id == Some(id),
        c.id == Some(Atom::Text(id)) && c.responses[j].response.conversation_id is None ==> chat_of(
            c,
        ).responses[j].response.conversation_id == Some(id),
        c.responses[j].response.conversation_id is Some ==> chat_of(c).responses[j]
            == c.responses[j],
{
}

/// Each key of a chat fills its own field. Other keys are kept beside.
pub proof fn law_chat_fields(c: ChatView, key: Seq<char>, a: Atom)
    ensures
        chat_with(c, "id"@, a).id == Some(a),
        chat_with(c, "name"@, a).name == Some(a),
        chat_with(c, "type"@, a).kind == Some(a),
        key != "id"@ ==> chat_with(c, key, a).id == c.id,
        key != "name"@ ==> chat_with(c, key, a).name == c.name,
        key != "type"@ ==> chat_with(c, key, a).kind == c.kind,
        key != "id"@ && key != "name"@ && key != "type"@ ==> lookup(chat_with(c, key, a).extra, key)
            == Some(a),
        chat_with(c, key, a).responses == c.responses,
{
    law_placed_is_found(c.extra, key, a, key);
    reveal_strlit("id");
    reveal_strlit("name");
    reveal_strlit("type");
    assert("id"@.len() == 2 && "name"@[0] == 'n' && "type"@[0] == 't');
}

/// What a key of the root holds: messages, account data, chats, or a value of
/// the root itself.
pub proof fn law_root_keys(key: Seq<char>)
    ensures
        root_kind(key) == RootKey::Messages <==> key == "messages"@,
        root_kind(key) == RootKey::Account <==> key == "personal_information"@,
        root_kind(key) == RootKey::Chats <==> key == "chats"@ || key == "left_chats"@,
{
    reveal_strlit("messages");
    reveal_strlit("personal_information");
    reveal_strlit("chats");
    reveal_strlit("left_chats");
    assert("messages"@.len() == 8 && "personal_information"@.len() == 20 && "chats"@.len() == 5
        && "left_chats"@.len() == 10);
}

/// A root with messages is a chat, and so is one with an id or a name and no
/// account data. Every other root is none.
pub proof fn law_root_is_a_chat(s: RootView, kind: RootKey)
    ensures
        root_is_chat(root_saw(s, RootKey::Messages)),
        s.chat.id is None && s.chat.name is None && !s.saw_messages ==> !root_is_chat(s),
        !s.saw_account && s.chat.id is Some ==> root_is_chat(s),
        !s.saw_account && s.chat.name is Some ==> root_is_chat(s),
        !s.saw_messages ==> !root_is_chat(root_saw(s, RootKey::Account)) && !root_is_chat(
            root_saw(s, RootKey::Chats),
        ),
        root_saw(s, RootKey::Value) == s,
        root_saw(s, kind).chat == s.chat,
        root_saw(s, kind).export_extra == s.export_extra,
{
}

} // verus!
