//! What reading an export keeps. The readers of the single formats say what
//! they do with one value; the laws here say that no key of an export is
//! lost on the way into a conversation.
use vstd::prelude::*;

use crate::cards::{card_item, is_body};
use crate::characters::{character, character_card, toml_atom, Toml};
use crate::chatgpt::{convo_with, is_convo_item, ConvoView};
use crate::facebook::{object_item, object_with, ObjectView};
use crate::markdown::{front_and_body, text_item, yaml_pair, yaml_pairs};
use crate::merge::filled;
use crate::order::ascending;
use crate::pairs::{
    keys, law_placed_is_found, law_placed_stays_ascending, law_union_loses_nothing,
    law_without_is_gone, lookup, placed, union, without,
};
use crate::paths::opt_view;
use crate::records::{ConversationView, ItemView};
use crate::schema::{opt_atom, Atom};
use crate::sessions::{
    line_response, second_of, summarized, summary_extra, unless, SessionJsonlLine,
    SessionSummaryFile,
};
use crate::sqlite::{
    nonempty_text, row_with, session_item, sql_atom, sql_text, sql_time, text_atom, with_atom,
    SqlValue,
};
use crate::telegram::{
    chat_extra, chat_of, chat_with, empty_root, message_response, odd_id, opt_id, root_beside,
    root_extra, root_is_chat, root_kind, root_saw, root_with, with_kept, ChatView, RootKey,
    RootView, TelegramMessage,
};
use crate::text::trim;
use crate::x_archive::archive_item;

verus! {

/// The value that an object gives a key: the last one where the key is
/// repeated.
pub open spec fn last_value<V>(fields: Seq<(Seq<char>, V)>, key: Seq<char>) -> Option<V>
    decreases fields.len(),
{
    if fields.len() == 0 {
        None
    } else if fields.last().0 == key {
        Some(fields.last().1)
    } else {
        last_value(fields.drop_last(), key)
    }
}

/// A ChatGPT conversation after all its fields are read, in order.
pub open spec fn read_convo(fields: Seq<(Seq<char>, Atom)>) -> ConvoView
    decreases fields.len(),
{
    if fields.len() == 0 {
        ConvoView {
            title: None,
            create_time: None,
            conversation_id: None,
            mapping: None,
            current_node: None,
            extra: Seq::empty(),
        }
    } else {
        convo_with(read_convo(fields.drop_last()), fields.last().0, fields.last().1)
    }
}

/// Every key of a ChatGPT conversation stays with its value.
pub proof fn law_chatgpt_keeps_every_key(
    fields: Seq<(Seq<char>, Atom)>,
    item: ItemView,
    key: Seq<char>,
)
    requires
        is_convo_item(read_convo(fields), item),
    ensures
        lookup(item.conversation.extra, key) == last_value(fields, key),
{
    lemma_convo_keys(fields, key);
}

proof fn lemma_convo_keys(fields: Seq<(Seq<char>, Atom)>, key: Seq<char>)
    ensures
        lookup(read_convo(fields).extra, key) == last_value(fields, key),
    decreases fields.len(),
{
    if fields.len() > 0 {
        let head = read_convo(fields.drop_last());
        lemma_convo_keys(fields.drop_last(), key);
        law_placed_is_found(head.extra, fields.last().0, fields.last().1, key);
    }
}

/// A Facebook or Instagram object after all its fields are read, in order.
pub open spec fn read_object(fields: Seq<(Seq<char>, Atom)>) -> ObjectView
    decreases fields.len(),
{
    if fields.len() == 0 {
        ObjectView {
            title: None,
            id: None,
            timestamp: None,
            data: None,
            content: None,
            extra: Seq::empty(),
        }
    } else {
        object_with(read_object(fields.drop_last()), fields.last().0, fields.last().1)
    }
}

/// Every key of a Facebook or Instagram object stays with its value.
pub proof fn law_facebook_keeps_every_key(
    fields: Seq<(Seq<char>, Atom)>,
    path: Seq<char>,
    index: nat,
    key: Seq<char>,
)
    ensures
        lookup(object_item(read_object(fields), path, index).conversation.extra, key)
            == last_value(fields, key),
    decreases fields.len(),
{
    if fields.len() > 0 {
        let head = read_object(fields.drop_last());
        law_facebook_keeps_every_key(fields.drop_last(), path, index, key);
        law_placed_is_found(head.extra, fields.last().0, fields.last().1, key);
    }
}

/// A Telegram chat after all its values are read, in order.
pub open spec fn read_chat(fields: Seq<(Seq<char>, Atom)>) -> ChatView
    decreases fields.len(),
{
    if fields.len() == 0 {
        ChatView {
            id: None,
            name: None,
            kind: None,
            extra: Seq::empty(),
            responses: Seq::empty(),
        }
    } else {
        chat_with(read_chat(fields.drop_last()), fields.last().0, fields.last().1)
    }
}

proof fn lemma_chat_keys(fields: Seq<(Seq<char>, Atom)>, key: Seq<char>)
    ensures
        ({
            let c = read_chat(fields);
            &&& c.id == last_value(fields, "id"@)
            &&& c.name == last_value(fields, "name"@)
            &&& c.kind == last_value(fields, "type"@)
            &&& lookup(c.extra, key) == if key == "id"@ || key == "name"@ || key == "type"@ {
                None
            } else {
                last_value(fields, key)
            }
        }),
    decreases fields.len(),
{
    reveal_strlit("id");
    reveal_strlit("name");
    reveal_strlit("type");
    assert("name"@[0] != "type"@[0]);
    assert("id"@.len() != "name"@.len());
    assert("id"@.len() != "type"@.len());
    if fields.len() > 0 {
        let head = read_chat(fields.drop_last());
        lemma_chat_keys(fields.drop_last(), key);
        law_placed_is_found(head.extra, fields.last().0, fields.last().1, key);
    }
}

proof fn lemma_with_kept(
    extra: Seq<(Seq<char>, Atom)>,
    key: Seq<char>,
    a: Option<Atom>,
    other: Seq<char>,
)
    ensures
        lookup(with_kept(extra, key, a), other) == if other == key && lookup(extra, key) is None {
            a
        } else {
            lookup(extra, other)
        },
{
    if let Some(x) = a {
        law_placed_is_found(extra, key, x, other);
    }
}

/// Every key of a Telegram chat beside its messages stays with its value.
pub proof fn law_telegram_chat_keeps_every_key(fields: Seq<(Seq<char>, Atom)>, key: Seq<char>)
    ensures
        lookup(chat_of(read_chat(fields)).conversation.extra, key) == last_value(fields, key),
{
    let c = read_chat(fields);
    reveal_strlit("id");
    reveal_strlit("name");
    reveal_strlit("type");
    assert("name"@[0] != "type"@[0]);
    assert("id"@.len() != "name"@.len());
    assert("id"@.len() != "type"@.len());
    lemma_chat_keys(fields, key);
    lemma_chat_keys(fields, "id"@);
    lemma_chat_keys(fields, "name"@);
    lemma_chat_keys(fields, "type"@);
    let e1 = with_kept(c.extra, "name"@, c.name);
    let e2 = with_kept(e1, "type"@, c.kind);
    lemma_with_kept(c.extra, "name"@, c.name, key);
    lemma_with_kept(c.extra, "name"@, c.name, "type"@);
    lemma_with_kept(c.extra, "name"@, c.name, "id"@);
    lemma_with_kept(e1, "type"@, c.kind, key);
    lemma_with_kept(e1, "type"@, c.kind, "id"@);
    lemma_with_kept(e2, "id"@, c.id, key);
}

proof fn lemma_with_atom(
    extra: Seq<(Seq<char>, Atom)>,
    key: Seq<char>,
    a: Option<Atom>,
    other: Seq<char>,
)
    ensures
        lookup(with_atom(extra, key, a), other) == if other == key && a is Some {
            a
        } else {
            lookup(extra, other)
        },
{
    if let Some(x) = a {
        law_placed_is_found(extra, key, x, other);
    }
}

/// The sender, the date and the text of a Telegram message stay as they
/// were, and so does every key that the reader does not know. The id becomes
/// the id of the response, or stays as it was.
pub proof fn law_telegram_message_keeps_every_key(m: TelegramMessage, key: Seq<char>)
    ensures
        ({
            let r = message_response(m).response;
            let e = r.extra;
            &&& m.id is Some ==> if opt_id(opt_atom(m.id)) is Some {
                r._id == opt_id(opt_atom(m.id))
            } else {
                lookup(e, "id"@) == opt_atom(m.id)
            }
            &&& m.from is Some ==> lookup(e, "from"@) == opt_atom(m.from)
            &&& m.from_id is Some ==> lookup(e, "from_id"@) == opt_atom(m.from_id)
            &&& m.date is Some ==> lookup(e, "date"@) == opt_atom(m.date)
            &&& m.text is Some ==> lookup(e, "text"@) == opt_atom(m.text)
            &&& key != "id"@ && key != "from"@ && key != "from_id"@ && key != "date"@ && key
                != "text"@ ==> lookup(e, key) == lookup(m.extra@, key)
        }),
{
    reveal_strlit("id");
    reveal_strlit("from");
    reveal_strlit("from_id");
    reveal_strlit("date");
    reveal_strlit("text");
    assert("from"@.len() != "from_id"@.len());
    assert("date"@.len() != "from_id"@.len());
    assert("text"@.len() != "from_id"@.len());
    assert("id"@.len() == 2);
    assert("from"@[0] != "date"@[0]);
    assert("from"@[0] != "text"@[0]);
    assert("date"@[0] != "text"@[0]);
    lemma_message_key(m, key);
    lemma_message_key(m, "id"@);
    lemma_message_key(m, "from"@);
    lemma_message_key(m, "from_id"@);
    lemma_message_key(m, "date"@);
    lemma_message_key(m, "text"@);
}

proof fn lemma_message_key(m: TelegramMessage, key: Seq<char>)
    ensures
        lookup(message_response(m).response.extra, key) == if key == "id"@ && odd_id(
            opt_atom(m.id),
        ) is Some {
            opt_atom(m.id)
        } else if key == "text"@ && m.text is Some {
            opt_atom(m.text)
        } else if key == "date"@ && m.date is Some {
            opt_atom(m.date)
        } else if key == "from_id"@ && m.from_id is Some {
            opt_atom(m.from_id)
        } else if key == "from"@ && m.from is Some {
            opt_atom(m.from)
        } else {
            lookup(m.extra@, key)
        },
{
    let e1 = with_atom(m.extra@, "from"@, opt_atom(m.from));
    let e2 = with_atom(e1, "from_id"@, opt_atom(m.from_id));
    let e3 = with_atom(e2, "date"@, opt_atom(m.date));
    let e4 = with_atom(e3, "text"@, opt_atom(m.text));
    lemma_with_atom(m.extra@, "from"@, opt_atom(m.from), key);
    lemma_with_atom(e1, "from_id"@, opt_atom(m.from_id), key);
    lemma_with_atom(e2, "date"@, opt_atom(m.date), key);
    lemma_with_atom(e3, "text"@, opt_atom(m.text), key);
    lemma_with_atom(e4, "id"@, odd_id(opt_atom(m.id)), key);
}

/// The top of a Telegram export after all its values are read, in order. The
/// value of a list of chats is what stands beside the list.
pub open spec fn read_root(fields: Seq<(Seq<char>, Atom)>) -> RootView
    decreases fields.len(),
{
    if fields.len() == 0 {
        empty_root()
    } else {
        let head = read_root(fields.drop_last());
        let (key, a) = fields.last();
        let seen = root_saw(head, root_kind(key));
        match root_kind(key) {
            RootKey::Messages => seen,
            RootKey::Chats => match a {
                Atom::Obj(rest) => root_beside(seen, key, rest),
                _ => seen,
            },
            RootKey::Account | RootKey::Value => root_with(seen, key, a),
        }
    }
}

/// Nothing stands beside a list of chats.
pub open spec fn stands_alone(a: Option<Atom>) -> bool {
    match a {
        Some(Atom::Obj(rest)) => rest.len() == 0,
        Some(_) => true,
        None => false,
    }
}

proof fn lemma_root_keys(fields: Seq<(Seq<char>, Atom)>, key: Seq<char>)
    ensures
        ({
            let c = read_root(fields).chat;
            let own = key == "id"@ || key == "name"@ || key == "type"@;
            &&& c.id == last_value(fields, "id"@)
            &&& c.name == last_value(fields, "name"@)
            &&& c.kind == last_value(fields, "type"@)
            &&& lookup(c.extra, key) == if own || root_kind(key) != RootKey::Value {
                None
            } else {
                last_value(fields, key)
            }
            &&& ascending(keys(c.extra))
            &&& match root_kind(key) {
                RootKey::Account => lookup(read_root(fields).export_extra, key) == last_value(
                    fields,
                    key,
                ),
                RootKey::Chats => stands_alone(last_value(fields, key)) || lookup(
                    read_root(fields).export_extra,
                    key,
                ) == last_value(fields, key),
                _ => lookup(read_root(fields).export_extra, key) is None,
            }
        }),
    decreases fields.len(),
{
    lemma_root_names();
    if fields.len() > 0 {
        let head = read_root(fields.drop_last());
        let (name, a) = fields.last();
        lemma_root_keys(fields.drop_last(), key);
        law_placed_is_found(head.chat.extra, name, a, key);
        law_placed_is_found(head.export_extra, name, a, key);
        law_placed_stays_ascending(head.chat.extra, name, a);
    }
}

/// The names that the reader of a Telegram export knows differ.
proof fn lemma_root_names()
    ensures
        root_kind("id"@) == RootKey::Value,
        root_kind("name"@) == RootKey::Value,
        root_kind("type"@) == RootKey::Value,
        "id"@ != "name"@,
        "id"@ != "type"@,
        "name"@ != "type"@,
{
    reveal_strlit("id");
    reveal_strlit("name");
    reveal_strlit("type");
    reveal_strlit("messages");
    reveal_strlit("personal_information");
    reveal_strlit("chats");
    reveal_strlit("left_chats");
    assert("id"@.len() == 2);
    assert("name"@.len() == 4);
    assert("type"@.len() == 4);
    assert("name"@[0] != "type"@[0]);
    assert("messages"@.len() == 8);
    assert("personal_information"@.len() == 20);
    assert("chats"@.len() == 5);
    assert("left_chats"@.len() == 10);
}

/// Putting a value under a free key keeps the names ascending.
proof fn lemma_kept_ascending(extra: Seq<(Seq<char>, Atom)>, key: Seq<char>, a: Option<Atom>)
    requires
        ascending(keys(extra)),
    ensures
        ascending(keys(with_kept(extra, key, a))),
{
    if let Some(x) = a {
        law_placed_stays_ascending(extra, key, x);
    }
}

/// Every key at the top of a Telegram export stays with its value: with the
/// chat that the top is, and else with the export. The account and what stands
/// beside a list of chats always stay with the export.
pub proof fn law_telegram_account_keeps_every_key(fields: Seq<(Seq<char>, Atom)>, key: Seq<char>)
    requires
        root_kind(key) != RootKey::Messages,
        root_kind(key) == RootKey::Chats ==> !stands_alone(last_value(fields, key)),
    ensures
        ({
            let s = read_root(fields);
            let kept = if root_is_chat(s) && root_kind(key) == RootKey::Value {
                chat_of(s.chat).conversation.extra
            } else {
                root_extra(s)
            };
            lookup(kept, key) == last_value(fields, key)
        }),
{
    let s = read_root(fields);
    let c = s.chat;
    lemma_root_names();
    lemma_root_keys(fields, key);
    lemma_root_keys(fields, "id"@);
    lemma_root_keys(fields, "name"@);
    lemma_root_keys(fields, "type"@);
    let e1 = with_kept(c.extra, "name"@, c.name);
    let e2 = with_kept(e1, "type"@, c.kind);
    lemma_with_kept(c.extra, "name"@, c.name, key);
    lemma_with_kept(c.extra, "name"@, c.name, "type"@);
    lemma_with_kept(c.extra, "name"@, c.name, "id"@);
    lemma_with_kept(e1, "type"@, c.kind, key);
    lemma_with_kept(e1, "type"@, c.kind, "id"@);
    lemma_with_kept(e2, "id"@, c.id, key);
    lemma_kept_ascending(c.extra, "name"@, c.name);
    lemma_kept_ascending(e1, "type"@, c.kind);
    lemma_kept_ascending(e2, "id"@, c.id);
    let own = chat_extra(c.id, c.name, c.kind, c.extra);
    law_union_loses_nothing(s.export_extra, own, false, key);
}

/// Every value of a session line stays: in its field of the response, or
/// beside it under its own key where another value has the field.
pub proof fn law_session_line_keeps_every_key(
    line: SessionJsonlLine,
    conversation: Option<Seq<char>>,
    key: Seq<char>,
)
    ensures
        ({
            let r = line_response(line, conversation).response;
            &&& line.kind is Some ==> r.sender == opt_view(line.kind)
            &&& line.content is Some ==> r.message == opt_atom(line.content)
            &&& line.line_id is Some ==> r._id == opt_view(line.line_id)
            &&& line.id is Some ==> if line.line_id is None {
                r._id == opt_view(line.id)
            } else {
                lookup(r.extra, "id"@) == text_atom(opt_view(line.id))
            }
            &&& line.model is Some ==> r.model == opt_view(line.model)
            &&& line.model_id is Some ==> if line.model is None {
                r.model == opt_view(line.model_id)
            } else {
                lookup(r.extra, "model_id"@) == text_atom(opt_view(line.model_id))
            }
            &&& key != "id"@ && key != "model_id"@ ==> lookup(r.extra, key) == lookup(
                line.extra@,
                key,
            )
        }),
{
    reveal_strlit("id");
    reveal_strlit("model_id");
    assert("id"@.len() != "model_id"@.len());
    let id = text_atom(second_of(opt_view(line.line_id), opt_view(line.id)));
    let model = text_atom(second_of(opt_view(line.model), opt_view(line.model_id)));
    let e1 = with_atom(line.extra@, "id"@, id);
    lemma_with_atom(line.extra@, "id"@, id, key);
    lemma_with_atom(line.extra@, "id"@, id, "id"@);
    lemma_with_atom(e1, "model_id"@, model, key);
    lemma_with_atom(e1, "model_id"@, model, "id"@);
    lemma_with_atom(e1, "model_id"@, model, "model_id"@);
}

/// A union in which the other side wins has every value of that side.
proof fn lemma_union_wins(
    base: Seq<(Seq<char>, Atom)>,
    other: Seq<(Seq<char>, Atom)>,
    key: Seq<char>,
)
    ensures
        lookup(other, key) is Some ==> lookup(union(base, other, true), key) == lookup(other, key),
    decreases other.len(),
{
    if other.len() > 0 {
        let head = union(base, other.drop_last(), true);
        lemma_union_wins(base, other.drop_last(), key);
        law_placed_is_found(head, other.last().0, other.last().1, key);
    }
}

/// Every value of a session summary stays: in its field of the conversation,
/// or under its own key where another value has the field or the value is
/// empty.
pub proof fn law_session_summary_keeps_every_key(
    c: ConversationView,
    s: SessionSummaryFile,
    key: Seq<char>,
)
    ensures
        ({
            let r = summarized(c, s);
            &&& s.id is Some ==> r.id == opt_view(s.id)
            &&& s.generated_title is Some ==> if filled(opt_view(s.generated_title)) {
                r.title == opt_view(s.generated_title)
            } else {
                lookup(r.extra, "generated_title"@) == text_atom(opt_view(s.generated_title))
            }
            &&& s.title is Some ==> if s.generated_title is None && filled(opt_view(s.title)) {
                r.title == opt_view(s.title)
            } else {
                lookup(r.extra, "title"@) == text_atom(opt_view(s.title))
            }
            &&& s.session_summary is Some ==> if filled(opt_view(s.session_summary)) {
                r.summary == opt_view(s.session_summary)
            } else {
                lookup(r.extra, "session_summary"@) == text_atom(opt_view(s.session_summary))
            }
            &&& key != "generated_title"@ && key != "title"@ && key != "session_summary"@
                && lookup(s.extra@, key) is Some ==> lookup(r.extra, key) == lookup(s.extra@, key)
        }),
{
    reveal_strlit("generated_title");
    reveal_strlit("title");
    reveal_strlit("session_summary");
    assert("generated_title"@.len() == 15);
    assert("title"@.len() == 5);
    assert("session_summary"@.len() == 15);
    assert("generated_title"@[0] != "session_summary"@[0]);
    lemma_summary_key(s, key);
    lemma_summary_key(s, "generated_title"@);
    lemma_summary_key(s, "title"@);
    lemma_summary_key(s, "session_summary"@);
    let other = summary_extra(s);
    lemma_union_wins(c.extra, other, key);
    lemma_union_wins(c.extra, other, "generated_title"@);
    lemma_union_wins(c.extra, other, "title"@);
    lemma_union_wins(c.extra, other, "session_summary"@);
}

proof fn lemma_summary_key(s: SessionSummaryFile, key: Seq<char>)
    ensures
        ({
            let g = opt_view(s.generated_title);
            let t = opt_view(s.title);
            let m = opt_view(s.session_summary);
            lookup(summary_extra(s), key) == if key == "session_summary"@ && m is Some && !filled(
                m,
            ) {
                text_atom(m)
            } else if key == "title"@ && t is Some && !(g is None && filled(t)) {
                text_atom(t)
            } else if key == "generated_title"@ && g is Some && !filled(g) {
                text_atom(g)
            } else {
                lookup(s.extra@, key)
            }
        }),
{
    let g = opt_view(s.generated_title);
    let t = opt_view(s.title);
    let m = opt_view(s.session_summary);
    let a1 = text_atom(unless(filled(g), g));
    let a2 = text_atom(unless(g is None && filled(t), t));
    let a3 = text_atom(unless(filled(m), m));
    let e1 = with_atom(s.extra@, "generated_title"@, a1);
    let e2 = with_atom(e1, "title"@, a2);
    lemma_with_atom(s.extra@, "generated_title"@, a1, key);
    lemma_with_atom(e1, "title"@, a2, key);
    lemma_with_atom(e2, "session_summary"@, a3, key);
}

/// Every key of a story card stays with its value. A title without outer white
/// space is the title of the conversation, and a body is the message.
pub proof fn law_story_card_keeps_every_key(fields: Seq<(Seq<char>, Atom)>, key: Seq<char>)
    requires
        card_item(Atom::Obj(fields)) is Some,
        lookup(fields, key) is Some,
    ensures
        ({
            let item = card_item(Atom::Obj(fields))->0;
            let a = lookup(fields, key)->0;
            if key == "title"@ && (a matches Atom::Text(s) && trim(s) == s) {
                item.conversation.title == Some(a->Text_0)
            } else if key == "value"@ && is_body(a) {
                item.responses.len() == 1 && item.responses[0].response.message == Some(a)
            } else {
                lookup(item.conversation.extra, key) == Some(a)
            }
        }),
{
    reveal_strlit("title");
    reveal_strlit("value");
    assert("title"@[0] != "value"@[0]);
    law_without_is_gone(fields, "title"@, key);
    law_without_is_gone(fields, "value"@, key);
    law_without_is_gone(without(fields, "title"@), "value"@, key);
}

/// Every key in the front matter of a Markdown file stays with its value: that
/// of its last line where the key is repeated. The text after the front matter
/// is the message.
pub proof fn law_front_matter_keeps_every_key(
    root: Seq<char>,
    path: Seq<char>,
    text: Seq<char>,
    replaced: bool,
    digest: Seq<u8>,
    mtime: Option<u64>,
    lines: Seq<Seq<char>>,
    i: int,
)
    requires
        front_and_body(text).0 == yaml_pairs(lines),
        0 <= i < lines.len(),
        yaml_pair(lines[i]) is Some,
        forall|j: int|
            i < j < lines.len() ==> (yaml_pair(#[trigger] lines[j]) is None || (yaml_pair(
                lines[j],
            )->0).0 != (yaml_pair(lines[i])->0).0),
    ensures
        ({
            let item = text_item(root, path, text, replaced, digest, mtime);
            let (key, value) = yaml_pair(lines[i])->0;
            &&& lookup(item.conversation.extra, key) == Some(value)
            &&& item.responses.len() == 1
            &&& item.responses[0].response.message == Some(Atom::Text(front_and_body(text).1))
        }),
{
    let (key, value) = yaml_pair(lines[i])->0;
    lemma_yaml_keys(lines, i);
    let base = if replaced {
        placed(Seq::empty(), "utf8_lossy"@, Atom::Bool(true))
    } else {
        Seq::empty()
    };
    lemma_union_wins(base, yaml_pairs(lines), key);
}

proof fn lemma_yaml_keys(lines: Seq<Seq<char>>, i: int)
    requires
        0 <= i < lines.len(),
        yaml_pair(lines[i]) is Some,
        forall|j: int|
            i < j < lines.len() ==> (yaml_pair(#[trigger] lines[j]) is None || (yaml_pair(
                lines[j],
            )->0).0 != (yaml_pair(lines[i])->0).0),
    ensures
        lookup(yaml_pairs(lines), (yaml_pair(lines[i])->0).0) == Some((yaml_pair(lines[i])->0).1),
    decreases lines.len(),
{
    let (key, value) = yaml_pair(lines[i])->0;
    let init = lines.drop_last();
    let m = yaml_pairs(init);
    if i < lines.len() - 1 {
        assert(init[i] == lines[i]);
        assert forall|j: int| i < j < init.len() implies (yaml_pair(#[trigger] init[j]) is None || (
        yaml_pair(init[j])->0).0 != key) by {
            assert(init[j] == lines[j]);
        }
        lemma_yaml_keys(init, i);
        assert(lines[lines.len() - 1] == lines.last());
    }
    if let Some((k, v)) = yaml_pair(lines.last()) {
        law_placed_is_found(m, k, v, key);
    }
}

/// A tweet, a like or direct messages keep the whole object that they came
/// in.
pub proof fn law_x_keeps_every_key(fields: Seq<(Seq<char>, Atom)>)
    requires
        lookup(fields, "tweet"@) is Some || lookup(fields, "like"@) is Some || lookup(
            fields,
            "dmConversation"@,
        ) is Some,
    ensures
        archive_item(Atom::Obj(fields)) is Some,
        archive_item(Atom::Obj(fields))->0.conversation.extra == fields,
{
}

/// Every key of a character stays with its value. The body does too: it is
/// the message.
pub proof fn law_character_keeps_every_key(
    path: Seq<char>,
    fields: Seq<(Seq<char>, Toml)>,
    key: Seq<char>,
)
    requires
        last_value(fields, key) is Some,
    ensures
        ({
            let item = character_card(path, character(fields));
            let a = toml_atom(last_value(fields, key)->0);
            if key == "value"@ && is_body(a) {
                item.responses.len() == 1 && item.responses[0].response.message == Some(a)
            } else {
                lookup(item.conversation.extra, key) == Some(a)
            }
        }),
{
    lemma_character_keys(fields, key);
}

proof fn lemma_character_keys(fields: Seq<(Seq<char>, Toml)>, key: Seq<char>)
    ensures
        last_value(fields, key) matches Some(v) ==> {
            let c = character(fields);
            let a = toml_atom(v);
            if key == "value"@ && is_body(a) {
                c.value == Some(a)
            } else {
                lookup(c.extra, key) == Some(a)
            }
        },
    decreases fields.len(),
{
    if fields.len() > 0 {
        let head = character(fields.drop_last());
        let a = toml_atom(fields.last().1);
        reveal_strlit("value");
        reveal_strlit("id");
        reveal_strlit("title");
        reveal_strlit("name");
        reveal_strlit("keys");
        assert("value"@[0] != "title"@[0]);
        assert("value"@.len() != "id"@.len());
        assert("value"@.len() != "name"@.len());
        assert("value"@.len() != "keys"@.len());
        lemma_character_keys(fields.drop_last(), key);
        law_placed_is_found(head.extra, fields.last().0, a, key);
    }
}

/// The columns that the reader of a session index takes apart.
pub open spec fn known_column(name: Seq<char>) -> bool {
    name == "session_id"@ || name == "title"@ || name == "content"@ || name == "content_hash"@
        || name == "cwd"@ || name == "updated_at"@
}

/// The known columns of a session row stay: the session is the id of the
/// conversation, the title its title, the content its message, the time its
/// time, and the others stay under their names.
pub proof fn law_session_row_keeps_known_columns(
    names: Seq<Seq<char>>,
    values: Seq<SqlValue>,
    i: int,
)
    requires
        names.len() == values.len(),
        0 <= i < names.len(),
        forall|j: int| i < j < names.len() ==> #[trigger] names[j] != names[i],
    ensures
        session_item(row_with(names, values)) matches Some(item) ==> {
            let name = names[i];
            let t = sql_text(values[i]);
            &&& name == "session_id"@ ==> item.conversation.id == nonempty_text(t)
            &&& name == "title"@ ==> item.conversation.title == nonempty_text(t)
            &&& name == "content"@ ==> item.responses[0].response.message == text_atom(t)
            &&& name == "updated_at"@ ==> item.conversation.modify_time == sql_time(values[i])
            &&& name == "content_hash"@ && t is Some ==> item.responses[0].response._id == t
            &&& (name == "content_hash"@ || name == "cwd"@) && t is Some ==> lookup(
                item.conversation.extra,
                name,
            ) == text_atom(t)
        },
{
    lemma_row_fields(names, values, i);
}

proof fn lemma_row_fields(names: Seq<Seq<char>>, values: Seq<SqlValue>, i: int)
    requires
        names.len() == values.len(),
        0 <= i < names.len(),
        forall|j: int| i < j < names.len() ==> #[trigger] names[j] != names[i],
    ensures
        ({
            let row = row_with(names, values);
            let name = names[i];
            let t = sql_text(values[i]);
            &&& name == "session_id"@ ==> row.session_id == t
            &&& name == "title"@ ==> row.title == t
            &&& name == "content"@ ==> row.content == t
            &&& name == "updated_at"@ ==> row.updated == sql_time(values[i])
            &&& name == "content_hash"@ && t is Some ==> row.content_hash == t
            &&& (name == "content_hash"@ || name == "cwd"@) && t is Some ==> lookup(
                row.extra,
                name,
            ) == text_atom(t)
        }),
    decreases names.len(),
{
    reveal_strlit("session_id");
    reveal_strlit("title");
    reveal_strlit("content");
    reveal_strlit("content_hash");
    reveal_strlit("cwd");
    reveal_strlit("updated_at");
    assert("session_id"@.len() == 10);
    assert("title"@.len() == 5);
    assert("content"@.len() == 7);
    assert("content_hash"@.len() == 12);
    assert("cwd"@.len() == 3);
    assert("updated_at"@.len() == 10);
    assert("session_id"@[0] != "updated_at"@[0]);
    let head = row_with(names.drop_last(), values.drop_last());
    let name = names.last();
    let v = values.last();
    if i < names.len() - 1 {
        lemma_row_fields(names.drop_last(), values.drop_last(), i);
        assert(names[names.len() - 1] != names[i]);
    }
    lemma_with_atom(head.extra, name, sql_atom(v), names[i]);
    lemma_with_atom(head.extra, name, text_atom(sql_text(v)), names[i]);
}

/// Every other column of a session row stays with its value, unless that is
/// null or a blob.
pub proof fn law_session_row_keeps_other_columns(
    names: Seq<Seq<char>>,
    values: Seq<SqlValue>,
    i: int,
)
    requires
        names.len() == values.len(),
        0 <= i < names.len(),
        forall|j: int| i < j < names.len() ==> #[trigger] names[j] != names[i],
        !known_column(names[i]),
        sql_atom(values[i]) is Some,
    ensures
        session_item(row_with(names, values)) matches Some(item) ==> lookup(
            item.conversation.extra,
            names[i],
        ) == sql_atom(values[i]),
{
    lemma_row_keys(names, values, i);
}

proof fn lemma_row_keys(names: Seq<Seq<char>>, values: Seq<SqlValue>, i: int)
    requires
        names.len() == values.len(),
        0 <= i < names.len(),
        forall|j: int| i < j < names.len() ==> #[trigger] names[j] != names[i],
        !known_column(names[i]),
        sql_atom(values[i]) is Some,
    ensures
        lookup(row_with(names, values).extra, names[i]) == sql_atom(values[i]),
    decreases names.len(),
{
    let head = row_with(names.drop_last(), values.drop_last());
    let name = names.last();
    let v = values.last();
    if i < names.len() - 1 {
        lemma_row_keys(names.drop_last(), values.drop_last(), i);
        assert(names[names.len() - 1] != names[i]);
    }
    lemma_with_atom(head.extra, name, sql_atom(v), names[i]);
    lemma_with_atom(head.extra, name, text_atom(sql_text(v)), names[i]);
}

} // verus!
