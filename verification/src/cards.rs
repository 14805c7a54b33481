//! Story cards and characters: flat objects with a title, keys and a body.
use vstd::prelude::*;

use crate::names::{is_conversations_json_name, conversations_json};
use crate::pairs::{law_without_is_gone, lookup, without};
use crate::paths::{extension, extension_of, file_name, file_name_of, opt_view};
use crate::records::{
    bare, bare_response, empty_conversation, empty_response, plain_item, says, Conversation,
    ConversationItem, ConversationView, ItemView, Response, ResponseItem, ResponseView,
};
use crate::schema::{atoms, lemma_atom, opt_atom, Atom, ExtraMap, JsonAtom};
use crate::text::{
    decimal, decimal_i64, decimal_int, decimal_u64, eq_ascii, is_white, join, join_with, law_trim,
    same_ascii, same_str, trim, trimmed, views,
};
use crate::Error;

verus! {

/// The trimmed text, when something is left.
pub open spec fn trimmed_text(s: Seq<char>) -> Option<Seq<char>> {
    if trim(s).len() == 0 {
        None
    } else {
        Some(trim(s))
    }
}

/// A scalar as text.
pub open spec fn plain_text(a: Atom) -> Option<Seq<char>> {
    match a {
        Atom::Text(s) => trimmed_text(s),
        Atom::I64(i) => Some(decimal_int(i as int)),
        Atom::U64(u) => Some(decimal(u as nat)),
        Atom::F64(_, t) => Some(t),
        Atom::Bool(b) => Some(
            if b {
                "true"@
            } else {
                "false"@
            },
        ),
        _ => None,
    }
}

/// The scalars of an array as texts.
pub open spec fn plain_texts(v: Seq<Atom>) -> Seq<Seq<char>>
    decreases v.len(),
{
    if v.len() == 0 {
        Seq::empty()
    } else {
        match plain_text(v.last()) {
            Some(s) => plain_texts(v.drop_last()).push(s),
            None => plain_texts(v.drop_last()),
        }
    }
}

/// The keys of a card as one text: a comma string, or an array of scalars.
pub open spec fn keys_text(a: Atom) -> Option<Seq<char>> {
    match a {
        Atom::Arr(v) => if plain_texts(v).len() == 0 {
            None
        } else {
            Some(join(plain_texts(v), ", "@))
        },
        _ => plain_text(a),
    }
}

/// The value is a body: not null and not empty.
pub open spec fn is_body(a: Atom) -> bool {
    match a {
        Atom::Null => false,
        Atom::Text(s) => s.len() > 0,
        Atom::Arr(v) => v.len() > 0,
        Atom::Obj(fs) => fs.len() > 0,
        _ => true,
    }
}

/// A scalar as text.
pub fn atom_plain_string(a: &JsonAtom) -> (r: Option<String>)
    ensures
        opt_view(r) == plain_text(a@),
{
    match a {
        JsonAtom::String(s) => {
            let t = trimmed(s);
            if t.is_empty() {
                None
            } else {
                Some(t)
            }
        },
        JsonAtom::I64(i) => Some(decimal_i64(*i)),
        JsonAtom::U64(u) => Some(decimal_u64(*u)),
        JsonAtom::F64(f) => Some(f.text.clone()),
        JsonAtom::Bool(b) => if *b {
            Some("true".to_owned())
        } else {
            Some("false".to_owned())
        },
        _ => None,
    }
}

/// The keys of a card as one text.
pub fn keys_as_text(a: &JsonAtom) -> (r: Option<String>)
    ensures
        opt_view(r) == keys_text(a@),
{
    match a {
        JsonAtom::Array(items) => {
            let ghost all = atoms(items@);
            let mut parts: Vec<String> = Vec::new();
            let mut i: usize = 0;
            proof {
                lemma_atom(*items, ExtraMap { entries: arbitrary() });
                assert(all.take(0) =~= Seq::<Atom>::empty());
                assert(views(parts@) =~= plain_texts(all.take(0)));
            }
            while i < items.len()
                invariant
                    i <= items@.len(),
                    all == atoms(items@),
                    views(parts@) == plain_texts(all.take(i as int)),
                decreases items.len() - i,
            {
                proof {
                    assert(all.take(i + 1).drop_last() =~= all.take(i as int));
                }
                if let Some(s) = atom_plain_string(&items[i]) {
                    let ghost held = parts@;
                    parts.push(s);
                    proof {
                        assert(views(parts@) =~= views(held).push(s@));
                    }
                }
                i = i + 1;
            }
            proof {
                assert(all.take(all.len() as int) =~= all);
                assert(views(parts@).len() == parts@.len());
            }
            if parts.len() == 0 {
                None
            } else {
                Some(join_with(parts.as_slice(), ", "))
            }
        },
        _ => atom_plain_string(a),
    }
}

/// Whether the value is a body.
pub fn atom_is_body(a: &JsonAtom) -> (r: bool)
    ensures
        r == is_body(a@),
{
    match a {
        JsonAtom::Null => false,
        JsonAtom::String(s) => !s.is_empty(),
        JsonAtom::Array(v) => {
            proof {
                lemma_atom(*v, ExtraMap { entries: arbitrary() });
            }
            v.len() > 0
        },
        JsonAtom::Object(m) => {
            proof {
                lemma_atom(arbitrary(), *m);
            }
            !m.is_empty()
        },
        _ => true,
    }
}

/// A card as a conversation: title and keys, and the body as its response.
pub open spec fn card(
    id: Seq<char>,
    title: Option<Seq<char>>,
    keys: Option<Seq<char>>,
    body: Option<Atom>,
    extra: Seq<(Seq<char>, Atom)>,
) -> ItemView {
    plain_item(
        ConversationView {
            id: Some(id),
            title,
            summary: keys,
            extra,
            ..empty_conversation()
        },
        match body {
            Some(a) => seq![
                bare(
                    ResponseView { conversation_id: Some(id), message: Some(a), ..empty_response() },
                ),
            ],
            None => Seq::empty(),
        },
    )
}

/// A card as a conversation.
pub fn card_of(
    id: String,
    title: Option<String>,
    keys: Option<String>,
    body: Option<JsonAtom>,
    extra: ExtraMap,
) -> (r: ConversationItem)
    ensures
        r@ == card(id@, opt_view(title), opt_view(keys), opt_atom(body), extra@),
{
    let ghost want = card(id@, opt_view(title), opt_view(keys), opt_atom(body), extra@);
    let mut responses: Vec<ResponseItem> = Vec::new();
    if let Some(message) = body {
        responses.push(
            bare_response(
                Response {
                    conversation_id: Some(id.clone()),
                    message: Some(message),
                    ..Default::default()
                },
            ),
        );
    }
    let r = ConversationItem {
        conversation: Conversation {
            id: Some(id),
            title,
            summary: keys,
            extra,
            ..Default::default()
        },
        responses,
        extra: ExtraMap::new(),
    };
    proof {
        assert(r@.responses =~= want.responses);
        assert(r@.conversation =~= want.conversation);
    }
    r
}

/// The text under a key of an object.
pub open spec fn text_under(fs: Seq<(Seq<char>, Atom)>, key: Seq<char>) -> Option<Seq<char>> {
    match lookup(fs, key) {
        Some(a) => plain_text(a),
        None => None,
    }
}

/// The keys of a card that take no field of the conversation. A title that is
/// not the text of the conversation's title stays, and so does a value that is
/// no body.
pub open spec fn card_extra(fs: Seq<(Seq<char>, Atom)>, title: Seq<char>) -> Seq<(Seq<char>, Atom)> {
    let rest = if lookup(fs, "title"@) == Some(Atom::Text(title)) {
        without(fs, "title"@)
    } else {
        fs
    };
    let value = lookup(fs, "value"@);
    if value is Some && is_body(value->0) {
        without(rest, "value"@)
    } else {
        rest
    }
}

/// The conversation that a story-card object makes. It needs a title, and
/// keys or a value.
pub open spec fn card_item(a: Atom) -> Option<ItemView> {
    match a {
        Atom::Obj(fs) => {
            let keys = match lookup(fs, "keys"@) {
                Some(k) => keys_text(k),
                None => None,
            };
            let value = lookup(fs, "value"@);
            let body = value is Some && is_body(value->0);
            match text_under(fs, "title"@) {
                Some(title) => if (keys is Some && keys->0.len() > 0) || body {
                    Some(
                        card(
                            title,
                            Some(title),
                            keys,
                            if body {
                                value
                            } else {
                                None
                            },
                            card_extra(fs, title),
                        ),
                    )
                } else {
                    None
                },
                None => None,
            }
        },
        _ => None,
    }
}

/// The conversation that a story-card object makes.
pub fn story_card_item(a: JsonAtom) -> (r: Option<ConversationItem>)
    ensures
        match r {
            Some(item) => card_item(a@) == Some(item@),
            None => card_item(a@) is None,
        },
{
    match a {
        JsonAtom::Object(fields) => {
            let ghost fs = fields@;
            proof {
                lemma_atom(arbitrary(), fields);
                reveal_strlit("title");
                reveal_strlit("value");
                assert("title"@[0] != "value"@[0]);
                law_without_is_gone(fs, "title"@, "value"@);
            }
            let (title, plain) = match fields.get("title") {
                Some(t) => match atom_plain_string(t) {
                    Some(s) => {
                        let same = match t {
                            JsonAtom::String(whole) => same_str(whole, &s),
                            _ => false,
                        };
                        (s, same)
                    },
                    None => {
                        return None;
                    },
                },
                None => {
                    return None;
                },
            };
            let keys = match fields.get("keys") {
                Some(k) => keys_as_text(k),
                None => None,
            };
            let has_body = match fields.get("value") {
                Some(v) => atom_is_body(v),
                None => false,
            };
            let mut extra = fields;
            if plain {
                extra.remove("title");
            }
            let value = if has_body {
                extra.remove("value")
            } else {
                None
            };
            let has_keys = match &keys {
                Some(k) => !k.is_empty(),
                None => false,
            };
            if !has_keys && value.is_none() {
                return None;
            }
            Some(card_of(title.clone(), Some(title), keys, value, extra))
        },
        _ => None,
    }
}

/// A JSON file that is the part of an export and no list of story cards.
pub open spec fn reserved_json(name: Seq<char>) -> bool {
    ||| same_ascii(name, "prod-grok-backend.json"@)
    ||| same_ascii(name, "prod-mc-auth-mgmt-api.json"@)
    ||| same_ascii(name, "prod-mc-billing.json"@)
    ||| same_ascii(name, "result.json"@)
    ||| same_ascii(name, "user.json"@)
    ||| conversations_json(name)
}

/// The name of a path, or the empty text.
pub open spec fn name_or_empty(path: Seq<char>) -> Seq<char> {
    match file_name(path) {
        Some(name) => name,
        None => Seq::empty(),
    }
}

/// The name of a path, or the empty text.
pub fn name_or_empty_of(path: &str) -> (r: String)
    ensures
        r@ == name_or_empty(path@),
{
    match file_name_of(path) {
        Some(name) => name,
        None => String::new(),
    }
}

/// Whether the file is part of an export.
pub fn is_reserved_json_name(path: &str) -> (r: bool)
    ensures
        r == reserved_json(name_or_empty(path@)),
{
    let name = name_or_empty_of(path);
    eq_ascii(&name, "prod-grok-backend.json") || eq_ascii(&name, "prod-mc-auth-mgmt-api.json")
        || eq_ascii(&name, "prod-mc-billing.json") || eq_ascii(&name, "result.json") || eq_ascii(
        &name,
        "user.json",
    ) || is_conversations_json_name(&name)
}

/// The path has the extension, up to case.
pub open spec fn has_extension(path: Seq<char>, ext: Seq<char>) -> bool {
    match extension(path) {
        Some(e) => same_ascii(e, ext),
        None => false,
    }
}

/// Whether the path has the extension, up to case.
pub fn path_has_extension(path: &str, ext: &str) -> (r: bool)
    ensures
        r == has_extension(path@, ext@),
{
    match extension_of(path) {
        Some(e) => eq_ascii(&e, ext),
        None => false,
    }
}

/// Space, tab, line feed, form feed or carriage return.
pub open spec fn ascii_space(b: u8) -> bool {
    b == 32 || b == 9 || b == 10 || b == 12 || b == 13
}

/// The first byte that is no white space is `[`.
pub open spec fn array_first(b: Seq<u8>) -> bool
    decreases b.len(),
{
    b.len() > 0 && if ascii_space(b[0]) {
        array_first(b.drop_first())
    } else {
        b[0] == 91
    }
}

/// Bytes without a byte order mark in front.
pub open spec fn without_mark(b: Seq<u8>) -> Seq<u8> {
    if b.len() >= 3 && b[0] == 0xef && b[1] == 0xbb && b[2] == 0xbf {
        b.skip(3)
    } else {
        b
    }
}

/// Whether a file that starts with `head` starts with a JSON array.
pub fn starts_with_array(head: &[u8]) -> (r: bool)
    ensures
        r == array_first(without_mark(head@)),
{
    let size: usize = head.len();
    let mut i: usize = if size >= 3 && head[0] == 0xef && head[1] == 0xbb && head[2] == 0xbf {
        3
    } else {
        0
    };
    let ghost all = without_mark(head@);
    proof {
        assert(head@.skip(i as int) =~= all);
    }
    while i < size
        invariant
            i <= size,
            size == head@.len(),
            all == without_mark(head@),
            array_first(all) == array_first(head@.skip(i as int)),
        decreases size - i,
    {
        let b = head[i];
        proof {
            assert(head@.skip(i as int)[0] == b);
            assert(head@.skip(i as int).drop_first() =~= head@.skip(i + 1));
        }
        if !(b == 32 || b == 9 || b == 10 || b == 12 || b == 13) {
            return b == 91;
        }
        i = i + 1;
    }
    false
}

/// Whether a file is a list of story cards: `.json`, no part of an export,
/// and an array. `head` is how the file starts.
pub fn looks_like_story_card_file(path: &str, head: &[u8]) -> (r: bool)
    ensures
        r == (has_extension(path@, "json"@) && !reserved_json(name_or_empty(path@)) && array_first(
            without_mark(head@),
        )),
{
    path_has_extension(path, "json") && !is_reserved_json_name(path) && starts_with_array(head)
}

/// The refusal of a list without cards.
pub fn no_story_cards(path: &str) -> (r: Error)
    ensures
        match r {
            Error::Ingest(m) => m@ == path@
                + " is a JSON array but has no story cards (need title plus keys or value)"@,
            _ => false,
        },
{
    let mut m = path.to_owned();
    m.push_str(" is a JSON array but has no story cards (need title plus keys or value)");
    Error::Ingest(m)
}

/// The text of a plain value: a string without the white space around it, a
/// number in decimal, or a truth value.
pub proof fn law_plain_text(s: Seq<char>, i: i64, u: u64, bits: u64, a: Seq<Atom>, fs: Seq<(Seq<char>, Atom)>)
    ensures
        s.len() > 0 && !is_white(s[0]) && !is_white(s[s.len() - 1]) ==> plain_text(Atom::Text(s))
            == Some(s),
        (forall|k: int| 0 <= k < s.len() ==> is_white(#[trigger] s[k])) ==> plain_text(
            Atom::Text(s),
        ) is None,
        plain_text(Atom::U64(u)) == Some(decimal(u as nat)),
        i >= 0 ==> plain_text(Atom::I64(i)) == Some(decimal(i as nat)),
        i < 0 ==> plain_text(Atom::I64(i)) == Some(seq!['-'] + decimal((-i) as nat)),
        plain_text(Atom::F64(bits, s)) == Some(s),
        plain_text(Atom::Bool(true)) == Some("true"@),
        plain_text(Atom::Bool(false)) == Some("false"@),
        plain_text(Atom::Null) is None,
        plain_text(Atom::Arr(a)) is None,
        plain_text(Atom::Obj(fs)) is None,
{
    let none = Seq::<char>::empty();
    if s.len() > 0 && !is_white(s[0]) && !is_white(s[s.len() - 1]) {
        law_trim(none, s, none);
        assert(none + s + none =~= s);
    }
    if forall|k: int| 0 <= k < s.len() ==> is_white(#[trigger] s[k]) {
        law_trim(s, none, none);
        assert(s + none + none =~= s);
    }
}

/// The keys of a card are its plain texts with a comma and a space between
/// them.
pub proof fn law_keys_text(texts: Seq<Seq<char>>)
    requires
        texts.len() > 0,
        forall|k: int|
            0 <= k < texts.len() ==> (#[trigger] texts[k]).len() > 0 && !is_white(texts[k][0])
                && !is_white(texts[k][texts[k].len() - 1]),
    ensures
        keys_text(Atom::Arr(Seq::new(texts.len(), |k: int| Atom::Text(texts[k])))) == Some(
            join(texts, seq![',', ' ']),
        ),
        keys_text(Atom::Text(texts[0])) == Some(texts[0]),
        keys_text(Atom::Arr(Seq::empty())) is None,
        keys_text(Atom::Arr(seq![Atom::Null])) is None,
{
    reveal_strlit(", ");
    assert(", "@ =~= seq![',', ' ']);
    lemma_plain_texts(texts);
    assert(texts[0].len() > 0);
    law_plain_text(texts[0], 0, 0, 0, Seq::empty(), Seq::empty());
    reveal_with_fuel(plain_texts, 2);
    assert(seq![Atom::Null].drop_last() =~= Seq::<Atom>::empty());
}

proof fn lemma_plain_texts(texts: Seq<Seq<char>>)
    requires
        forall|k: int|
            0 <= k < texts.len() ==> (#[trigger] texts[k]).len() > 0 && !is_white(texts[k][0])
                && !is_white(texts[k][texts[k].len() - 1]),
    ensures
        plain_texts(Seq::new(texts.len(), |k: int| Atom::Text(texts[k]))) == texts,
    decreases texts.len(),
{
    let v = Seq::new(texts.len(), |k: int| Atom::Text(texts[k]));
    if texts.len() > 0 {
        let init = texts.drop_last();
        assert forall|k: int| 0 <= k < init.len() implies (#[trigger] init[k]).len() > 0 && !is_white(
            init[k][0],
        ) && !is_white(init[k][init[k].len() - 1]) by {
            assert(init[k] == texts[k]);
        }
        lemma_plain_texts(init);
        assert(v.drop_last() =~= Seq::new(init.len(), |k: int| Atom::Text(init[k])));
        let last = texts[texts.len() - 1];
        assert(last.len() > 0);
        law_plain_text(last, 0, 0, 0, Seq::empty(), Seq::empty());
        assert(init.push(last) =~= texts);
    } else {
        assert(texts =~= Seq::<Seq<char>>::empty());
    }
}

/// A card needs a title, and keys or a value that says something. It becomes
/// a conversation with that title, the keys as its summary and the value as
/// its one message.
pub proof fn law_story_card(fs: Seq<(Seq<char>, Atom)>, title: Seq<char>, keys: Seq<char>, a: Atom)
    requires
        title.len() > 0 && !is_white(title[0]) && !is_white(title[title.len() - 1]),
        keys.len() > 0 && !is_white(keys[0]) && !is_white(keys[keys.len() - 1]),
    ensures
        lookup(fs, "title"@) is None ==> card_item(Atom::Obj(fs)) is None,
        lookup(fs, "keys"@) is None && lookup(fs, "value"@) is None ==> card_item(Atom::Obj(fs)) is None,
        lookup(fs, "title"@) == Some(Atom::Text(title)) && lookup(fs, "keys"@) == Some(
            Atom::Text(keys),
        ) ==> card_item(Atom::Obj(fs)) is Some && card_item(Atom::Obj(fs))->0.conversation.title
            == Some(title) && card_item(Atom::Obj(fs))->0.conversation.id == Some(title)
            && card_item(Atom::Obj(fs))->0.conversation.summary == Some(keys),
        lookup(fs, "title"@) == Some(Atom::Text(title)) && lookup(fs, "value"@) == Some(
            Atom::Text(keys),
        ) ==> card_item(Atom::Obj(fs)) is Some && says(card_item(Atom::Obj(fs))->0, seq![keys])
            && card_item(Atom::Obj(fs))->0.conversation.title == Some(title),
        lookup(fs, "title"@) == Some(Atom::Text(title)) && lookup(fs, "value"@) is None
            && card_item(Atom::Obj(fs)) is Some ==> card_item(Atom::Obj(fs))->0.responses.len()
            == 0,
        !(a is Obj) ==> card_item(a) is None,
{
    law_plain_text(title, 0, 0, 0, Seq::empty(), Seq::empty());
    law_plain_text(keys, 0, 0, 0, Seq::empty(), Seq::empty());
}

/// JSON files of other exports.
pub open spec fn other_exports() -> Seq<Seq<char>> {
    seq![
        "prod-grok-backend.json"@,
        "prod-mc-auth-mgmt-api.json"@,
        "prod-mc-billing.json"@,
        "result.json"@,
        "user.json"@,
    ]
}

/// The JSON files of other exports are never story cards, in either case.
pub proof fn law_reserved_names(name: Seq<char>)
    ensures
        reserved_json(name) <==> {
            ||| conversations_json(name)
            ||| exists|k: int|
                0 <= k < other_exports().len() && same_ascii(name, #[trigger] other_exports()[k])
        },
{
    let all = other_exports();
    assert(all[0] == "prod-grok-backend.json"@ && all[1] == "prod-mc-auth-mgmt-api.json"@ && all[2]
        == "prod-mc-billing.json"@ && all[3] == "result.json"@ && all[4] == "user.json"@);
}

/// The white space that JSON text may have in front.
pub open spec fn space_bytes() -> Seq<u8> {
    seq![32u8, 9, 10, 12, 13]
}

/// A JSON array opens with a bracket, behind white space and a byte order mark.
pub proof fn law_array_opens(space: Seq<u8>, rest: Seq<u8>)
    requires
        forall|k: int| 0 <= k < space.len() ==> space_bytes().contains(#[trigger] space[k]),
        rest.len() > 0,
        !space_bytes().contains(rest[0]),
    ensures
        array_first(space + rest) == (rest[0] == 91),
        without_mark(seq![0xefu8, 0xbb, 0xbf] + rest) == rest,
        rest[0] != 0xef ==> without_mark(rest) == rest,
    decreases space.len(),
{
    let all = space_bytes();
    assert(all[0] == 32 && all[1] == 9 && all[2] == 10 && all[3] == 12 && all[4] == 13);
    assert(!ascii_space(rest[0]));
    if space.len() == 0 {
        assert(space + rest =~= rest);
    } else {
        assert(all.contains(space[0]));
        let more = space.drop_first();
        assert forall|k: int| 0 <= k < more.len() implies all.contains(#[trigger] more[k]) by {
            assert(more[k] == space[k + 1]);
        }
        law_array_opens(more, rest);
        assert((space + rest).drop_first() =~= more + rest);
    }
    let marked = seq![0xefu8, 0xbb, 0xbf] + rest;
    assert(marked.skip(3) =~= rest);
}

} // verus!
